//! Watching together: the commands that a member's device posts, and how a
//! group is named and listed.

use vstd::prelude::*;
use vstd::string::*;
use crate::socket::{self, play_state_str, GroupCommand, GroupPlayState};
use crate::text::{self, trimmed};

verus! {

/// What is known of the device that a command comes from.
#[derive(Debug, Clone, Copy, PartialEq, Eq, Structural)]
pub enum Caller {
    /// The request names no device.
    NoDevice,
    /// The device has no socket.
    NoSocket,
    /// The device is in no group.
    NoGroup,
    /// The device is a member of a group.
    InGroup,
}

/// A command as it is posted; positions are in ticks.
#[derive(Debug)]
pub enum SyncPlayRequest {
    SetNewQueue {
        playing_queue: Vec<String>,
        playing_item_position: usize,
        start_position_ticks: u64,
    },
    Unpause,
    Pause,
    Seek { position_ticks: u64 },
    Buffering { position_ticks: u64 },
    Ready { position_ticks: u64 },
    SetPlaylistItem { playlist_item_id: String },
    NextItem,
    PreviousItem,
    SetRepeatMode { mode: String },
    SetShuffleMode { mode: String },
}

/// What the group is told for a command; positions are in milliseconds.
pub open spec fn command_for(r: SyncPlayRequest) -> GroupCommand {
    match r {
        SyncPlayRequest::SetNewQueue {
            playing_queue,
            playing_item_position,
            start_position_ticks,
        } => GroupCommand::SetNewQueue {
            item_ids: playing_queue,
            playing_index: playing_item_position,
            start_position_ms: (start_position_ticks / 10_000) as u64,
        },
        SyncPlayRequest::Unpause => GroupCommand::Unpause,
        SyncPlayRequest::Pause => GroupCommand::PauseShared,
        SyncPlayRequest::Seek { position_ticks } => GroupCommand::SeekTo {
            position_ms: (position_ticks / 10_000) as u64,
        },
        SyncPlayRequest::Buffering { position_ticks } => GroupCommand::BufferingStart {
            position_ms: (position_ticks / 10_000) as u64,
            playlist_item: None,
        },
        SyncPlayRequest::Ready { position_ticks } => GroupCommand::MemberReady {
            position_ms: (position_ticks / 10_000) as u64,
        },
        SyncPlayRequest::SetPlaylistItem { playlist_item_id } => GroupCommand::SetPlaylistItem {
            playlist_item_id,
        },
        SyncPlayRequest::NextItem => GroupCommand::NextItem,
        SyncPlayRequest::PreviousItem => GroupCommand::PreviousItem,
        SyncPlayRequest::SetRepeatMode { mode } => GroupCommand::SetRepeatMode { mode },
        SyncPlayRequest::SetShuffleMode { mode } => GroupCommand::SetShuffleMode { mode },
    }
}

/// What the group is told for a command.
pub fn group_command(r: SyncPlayRequest) -> (c: GroupCommand)
    ensures
        c == command_for(r),
{
    match r {
        SyncPlayRequest::SetNewQueue {
            playing_queue,
            playing_item_position,
            start_position_ticks,
        } => GroupCommand::SetNewQueue {
            item_ids: playing_queue,
            playing_index: playing_item_position,
            start_position_ms: start_position_ticks / socket::POSITION_TICKS_PER_MS,
        },
        SyncPlayRequest::Unpause => GroupCommand::Unpause,
        SyncPlayRequest::Pause => GroupCommand::PauseShared,
        SyncPlayRequest::Seek { position_ticks } => GroupCommand::SeekTo {
            position_ms: position_ticks / socket::POSITION_TICKS_PER_MS,
        },
        SyncPlayRequest::Buffering { position_ticks } => GroupCommand::BufferingStart {
            position_ms: position_ticks / socket::POSITION_TICKS_PER_MS,
            playlist_item: None,
        },
        SyncPlayRequest::Ready { position_ticks } => GroupCommand::MemberReady {
            position_ms: position_ticks / socket::POSITION_TICKS_PER_MS,
        },
        SyncPlayRequest::SetPlaylistItem { playlist_item_id } => GroupCommand::SetPlaylistItem {
            playlist_item_id,
        },
        SyncPlayRequest::NextItem => GroupCommand::NextItem,
        SyncPlayRequest::PreviousItem => GroupCommand::PreviousItem,
        SyncPlayRequest::SetRepeatMode { mode } => GroupCommand::SetRepeatMode { mode },
        SyncPlayRequest::SetShuffleMode { mode } => GroupCommand::SetShuffleMode { mode },
    }
}

/// What the caller's group is told; nothing where there is no group to tell.
pub fn dispatch(caller: Caller, r: SyncPlayRequest) -> (c: Option<GroupCommand>)
    ensures
        c == (if caller is InGroup {
            Some(command_for(r))
        } else {
            None
        }),
{
    match caller {
        Caller::InGroup => Some(group_command(r)),
        _ => None,
    }
}

/// The name of a new group: the one that was asked for unless it is blank, else
/// one made of the founder's name.
pub open spec fn name_of_group(asked: Option<Seq<char>>, founder: Option<Seq<char>>) -> Seq<char> {
    match asked {
        Some(n) if text::trim(n).len() > 0 => n,
        _ => (match founder {
            Some(f) => f,
            None => "Watch"@,
        }) + "'s Group"@,
    }
}

/// The name of a new group.
pub fn group_name(asked: &Option<String>, founder: &Option<String>) -> (r: String)
    ensures
        r@ == name_of_group(text::opt_text(*asked), text::opt_text(*founder)),
{
    if let Some(n) = asked {
        if !trimmed(n.as_str()).as_str().is_empty() {
            return n.clone();
        }
    }
    let mut out: String = match founder {
        Some(f) => f.clone(),
        None => "Watch".to_owned(),
    };
    out.append("'s Group");
    out
}

/// What is done with a group when a device joins or leaves it.
#[derive(Debug)]
pub enum GroupStep {
    /// The device is noted as belonging to the group.
    Attach,
    /// The group takes the member in, under this name.
    AddMember { name: String },
    /// The group goes by this name.
    SetGroupName { name: String },
    /// The device no longer belongs to the group.
    Detach,
    /// The group lets the member go.
    RemoveMember,
}

/// A step as text.
pub enum StepText {
    Attach,
    AddMember(Seq<char>),
    SetGroupName(Seq<char>),
    Detach,
    RemoveMember,
}

pub open spec fn step_text(s: GroupStep) -> StepText {
    match s {
        GroupStep::Attach => StepText::Attach,
        GroupStep::AddMember { name } => StepText::AddMember(name@),
        GroupStep::SetGroupName { name } => StepText::SetGroupName(name@),
        GroupStep::Detach => StepText::Detach,
        GroupStep::RemoveMember => StepText::RemoveMember,
    }
}

pub open spec fn step_texts(v: Seq<GroupStep>) -> Seq<StepText> {
    Seq::new(v.len(), |i: int| step_text(v[i]))
}

/// How a device is taken into a group: it is noted before the group hears of it,
/// so that the first command finds it there. A device without a socket cannot
/// be taken in.
pub open spec fn joining(session: Option<Seq<char>>) -> Seq<StepText> {
    match session {
        Some(name) => seq![StepText::Attach, StepText::AddMember(name)],
        None => Seq::empty(),
    }
}

/// Takes a device into a group. `session` is the name that its socket goes by.
pub fn add_caller_to_group(session: &Option<String>) -> (r: Vec<GroupStep>)
    ensures
        step_texts(r@) == joining(text::opt_text(*session)),
{
    match session {
        Some(name) => {
            let r: Vec<GroupStep> = vec![
                GroupStep::Attach,
                GroupStep::AddMember { name: name.clone() },
            ];
            proof {
                assert(step_texts(r@) =~= joining(Some(name@)));
            }
            r
        },
        None => {
            let r: Vec<GroupStep> = vec![];
            proof {
                assert(step_texts(r@) =~= Seq::<StepText>::empty());
            }
            r
        },
    }
}

/// How a group is founded: the founder joins, and then the group is named.
/// Without a device, or with a registry that makes no group, nothing is done.
pub open spec fn founding(
    has_device: bool,
    made: bool,
    session: Option<Seq<char>>,
    asked: Option<Seq<char>>,
) -> Seq<StepText> {
    if has_device && made {
        joining(session).push(StepText::SetGroupName(name_of_group(asked, session)))
    } else {
        Seq::empty()
    }
}

/// Founds a group.
pub fn new_group(has_device: bool, made: bool, session: &Option<String>, asked: &Option<String>) -> (r:
    Vec<GroupStep>)
    ensures
        step_texts(r@) == founding(
            has_device,
            made,
            text::opt_text(*session),
            text::opt_text(*asked),
        ),
{
    if !has_device || !made {
        let r: Vec<GroupStep> = vec![];
        proof {
            assert(step_texts(r@) =~= Seq::<StepText>::empty());
        }
        return r;
    }
    let mut r = add_caller_to_group(session);
    let ghost before = r@;
    let name = group_name(asked, session);
    r.push(GroupStep::SetGroupName { name });
    proof {
        assert(step_texts(r@) =~= step_texts(before).push(
            StepText::SetGroupName(
                name_of_group(text::opt_text(*asked), text::opt_text(*session)),
            ),
        ));
    }
    r
}

/// Joins a group that is there or was made.
pub fn join_group(has_device: bool, made: bool, session: &Option<String>) -> (r: Vec<GroupStep>)
    ensures
        step_texts(r@) == (if has_device && made {
            joining(text::opt_text(*session))
        } else {
            Seq::empty()
        }),
{
    if has_device && made {
        add_caller_to_group(session)
    } else {
        let r: Vec<GroupStep> = vec![];
        proof {
            assert(step_texts(r@) =~= Seq::<StepText>::empty());
        }
        r
    }
}

/// Leaves the group that the caller is in, if any.
pub fn leave_group(caller: Caller) -> (r: Vec<GroupStep>)
    ensures
        step_texts(r@) == (if caller is InGroup {
            seq![StepText::Detach, StepText::RemoveMember]
        } else {
            Seq::empty()
        }),
{
    match caller {
        Caller::InGroup => {
            let r: Vec<GroupStep> = vec![GroupStep::Detach, GroupStep::RemoveMember];
            proof {
                assert(step_texts(r@) =~= seq![StepText::Detach, StepText::RemoveMember]);
            }
            r
        },
        _ => {
            let r: Vec<GroupStep> = vec![];
            proof {
                assert(step_texts(r@) =~= Seq::<StepText>::empty());
            }
            r
        },
    }
}

/// A group dies with the first message that finds it empty, so its founder is
/// taken in before it is told anything else.
pub proof fn law_a_group_hears_of_its_founder_first(founder: Seq<char>, asked: Option<Seq<char>>)
    ensures
        founding(true, true, Some(founder), asked) == seq![
            StepText::Attach,
            StepText::AddMember(founder),
            StepText::SetGroupName(name_of_group(asked, Some(founder))),
        ],
{
    assert(founding(true, true, Some(founder), asked) =~= seq![
        StepText::Attach,
        StepText::AddMember(founder),
        StepText::SetGroupName(name_of_group(asked, Some(founder))),
    ]);
}

/// A group has a name, whatever was asked for.
pub proof fn law_a_group_has_a_name(asked: Option<Seq<char>>, founder: Option<Seq<char>>)
    ensures
        name_of_group(asked, founder).len() > 0,
{
    reveal_strlit("'s Group");
}

/// A group as its actor reports it; none where the actor is gone.
#[derive(Debug)]
pub struct GroupSnapshot {
    pub id: String,
    pub group_name: String,
    pub play_state: GroupPlayState,
    pub participants: Vec<String>,
}

/// A group as it is listed.
#[derive(Debug)]
pub struct GroupInfo {
    pub group_id: String,
    pub group_name: String,
    pub state: &'static str,
    pub participants: Vec<String>,
    pub last_updated_unix_ms: i64,
}

/// The groups that are still there.
pub open spec fn present(snaps: Seq<Option<GroupSnapshot>>) -> Seq<GroupSnapshot>
    decreases snaps.len(),
{
    if snaps.len() == 0 {
        Seq::empty()
    } else {
        let rest = present(snaps.drop_last());
        match snaps.last() {
            Some(s) => rest.push(s),
            None => rest,
        }
    }
}

fn copy_participants(v: &Vec<String>) -> (r: Vec<String>)
    ensures
        r@ == v@,
{
    let mut out: Vec<String> = Vec::new();
    let mut i: usize = 0;
    while i < v.len()
        invariant
            i <= v@.len(),
            out@ =~= v@.take(i as int),
        decreases v@.len() - i,
    {
        out.push(v[i].clone());
        i += 1;
    }
    out
}

pub open spec fn same_group(i: GroupInfo, s: GroupSnapshot, now: i64) -> bool {
    &&& i.group_id@ == s.id@
    &&& i.group_name@ == s.group_name@
    &&& i.state@ == socket::state_label(s.play_state)
    &&& i.participants@ == s.participants@
    &&& i.last_updated_unix_ms == now
}

/// Lists the groups that are still there; none where the registry does not
/// answer.
pub fn list_groups(snaps: &Option<Vec<Option<GroupSnapshot>>>, now: i64) -> (r: Vec<GroupInfo>)
    ensures
        ({
            let ss = match *snaps {
                Some(v) => present(v@),
                None => Seq::empty(),
            };
            r@.len() == ss.len() && forall|i: int|
                0 <= i < r@.len() ==> same_group(#[trigger] r@[i], ss[i], now)
        }),
{
    let mut out: Vec<GroupInfo> = Vec::new();
    if let Some(v) = snaps {
        let mut i: usize = 0;
        proof {
            assert(v@.take(0) == Seq::<Option<GroupSnapshot>>::empty());
        }
        while i < v.len()
            invariant
                i <= v@.len(),
                out@.len() == present(v@.take(i as int)).len(),
                forall|k: int|
                    0 <= k < out@.len() ==> same_group(
                        #[trigger] out@[k],
                        present(v@.take(i as int))[k],
                        now,
                    ),
            decreases v@.len() - i,
        {
            proof {
                assert(v@.take(i + 1).drop_last() == v@.take(i as int));
                assert(v@.take(i + 1).last() == v@[i as int]);
            }
            if let Some(s) = &v[i] {
                out.push(
                    GroupInfo {
                        group_id: s.id.clone(),
                        group_name: s.group_name.clone(),
                        state: play_state_str(s.play_state),
                        participants: copy_participants(&s.participants),
                        last_updated_unix_ms: now,
                    },
                );
            }
            i += 1;
        }
        proof {
            assert(v@.take(i as int) == v@);
        }
    }
    out
}

// ------------------------------------------------------------------------ laws

/// A posted command is passed on as what it is, with its place in the title in
/// milliseconds instead of ticks.
pub proof fn law_commands_are_passed_on(ticks: u64, mode: String, id: String, queue: Vec<String>, at: usize)
    ensures
        command_for(SyncPlayRequest::Unpause) is Unpause,
        command_for(SyncPlayRequest::Pause) is PauseShared,
        command_for(SyncPlayRequest::NextItem) is NextItem,
        command_for(SyncPlayRequest::PreviousItem) is PreviousItem,
        command_for(SyncPlayRequest::Seek { position_ticks: ticks }) == (GroupCommand::SeekTo {
            position_ms: (ticks / 10_000) as u64,
        }),
        command_for(SyncPlayRequest::Ready { position_ticks: ticks }) == (
        GroupCommand::MemberReady { position_ms: (ticks / 10_000) as u64 }),
        command_for(SyncPlayRequest::Buffering { position_ticks: ticks }) == (
        GroupCommand::BufferingStart { position_ms: (ticks / 10_000) as u64, playlist_item: None }),
        command_for(SyncPlayRequest::SetPlaylistItem { playlist_item_id: id }) == (
        GroupCommand::SetPlaylistItem { playlist_item_id: id }),
        command_for(SyncPlayRequest::SetRepeatMode { mode }) == (GroupCommand::SetRepeatMode {
            mode,
        }),
        command_for(SyncPlayRequest::SetShuffleMode { mode }) == (GroupCommand::SetShuffleMode {
            mode,
        }),
        command_for(
            SyncPlayRequest::SetNewQueue {
                playing_queue: queue,
                playing_item_position: at,
                start_position_ticks: ticks,
            },
        ) == (GroupCommand::SetNewQueue {
            item_ids: queue,
            playing_index: at,
            start_position_ms: (ticks / 10_000) as u64,
        }),
{
}

/// A group has the name that was asked for, or its founder's, or a common one.
pub proof fn law_groups_are_named(asked: Seq<char>, founder: Seq<char>)
    ensures
        text::trim(asked).len() > 0 ==> name_of_group(Some(asked), Some(founder)) == asked,
        text::trim(asked).len() == 0 ==> name_of_group(Some(asked), Some(founder)) == founder
            + "'s Group"@,
        name_of_group(None, Some(founder)) == founder + "'s Group"@,
        name_of_group(None, None) == "Watch"@ + "'s Group"@,
{
}

/// A device that joins is noted and then taken in under its own name; one
/// without a socket is not.
pub proof fn law_devices_join_under_their_name(name: Seq<char>)
    ensures
        joining(Some(name)) == seq![StepText::Attach, StepText::AddMember(name)],
        joining(None).len() == 0,
{
}

proof fn lemma_present_holds(snaps: Seq<Option<GroupSnapshot>>, k: int)
    requires
        0 <= k < snaps.len(),
        snaps[k] is Some,
    ensures
        present(snaps).contains(snaps[k]->0),
    decreases snaps.len(),
{
    let rest = present(snaps.drop_last());
    let all = present(snaps);
    if k == snaps.len() - 1 {
        assert(all[rest.len() as int] == snaps[k]->0);
    } else {
        assert(snaps.drop_last()[k] == snaps[k]);
        lemma_present_holds(snaps.drop_last(), k);
        let j = choose|j: int| 0 <= j < rest.len() && rest[j] == snaps[k]->0;
        assert(all[j] == snaps[k]->0);
    }
}

/// Every group that answers is listed, under its id and its name, with what it
/// does and who is in it.
pub proof fn law_groups_are_listed(
    r: Seq<GroupInfo>,
    snaps: Seq<Option<GroupSnapshot>>,
    now: i64,
    k: int,
)
    requires
        r.len() == present(snaps).len(),
        forall|i: int| 0 <= i < r.len() ==> same_group(#[trigger] r[i], present(snaps)[i], now),
        0 <= k < snaps.len(),
        snaps[k] is Some,
    ensures
        exists|i: int|
            0 <= i < r.len() && (#[trigger] r[i]).group_id@ == snaps[k]->0.id@ && r[i].group_name@
                == snaps[k]->0.group_name@ && r[i].participants@ == snaps[k]->0.participants@ && (
            snaps[k]->0.play_state == GroupPlayState::Playing ==> r[i].state@ == "Playing"@) && (
            snaps[k]->0.play_state == GroupPlayState::Paused ==> r[i].state@ == "Paused"@) && (
            snaps[k]->0.play_state == GroupPlayState::Waiting ==> r[i].state@ == "Waiting"@) && (
            snaps[k]->0.play_state == GroupPlayState::Idle ==> r[i].state@ == "Idle"@),
{
    lemma_present_holds(snaps, k);
    let i = choose|i: int| 0 <= i < present(snaps).len() && present(snaps)[i] == snaps[k]->0;
    assert(same_group(r[i], present(snaps)[i], now));
}

} // verus!
