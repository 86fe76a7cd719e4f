use pharos_server::socket::{
    device_id_from_query, forward_broadcast, is_playstate_command, percent_decode,
    play_queue_reason, teardown_due, translate_broadcast, translate_outbound, GroupPlayState,
    ServerMsg, SocketBroadcast, TranslateCtx,
};
use pharos_server::socket_messages::{
    Inbound, Outbound, Payload, SyncPlayJoinData, UpdateBody,
};
use pharos_server::syncplay::{group_name, list_groups, GroupSnapshot};

fn ctx(group_id: Option<&str>, current_pli: Option<&str>) -> TranslateCtx {
    TranslateCtx {
        group_id: group_id.map(String::from),
        epoch_unix_ms: 0,
        current_pli: current_pli.map(String::from),
    }
}

#[test]
fn translate_pause_carries_position_ticks() {
    // A client seeks to the position of a pause; one without would seek it to
    // the start.
    let out: Outbound<u64> = translate_outbound(
        &ServerMsg::Pause { at_server_ms: 1_000, position_ms: 654_321 },
        &ctx(None, Some("pli-1")),
        0,
    )
    .unwrap();
    assert_eq!(out.message_type, "SyncPlayCommand");
    match out.data {
        Payload::Command(c) => {
            assert_eq!(c.command, "Pause");
            assert_eq!(c.position_ticks, Some(654_321u64 * 10_000));
        }
        other => panic!("{other:?}"),
    }
}

#[test]
fn translate_library_changed_emits_libchanged_outbound() {
    let out: Outbound<u64> = translate_broadcast(SocketBroadcast::LibraryChanged {
        added: Vec::new(),
        removed: Vec::new(),
    });
    assert_eq!(out.message_type, "LibraryChanged");
    match out.data {
        Payload::LibraryChanged { items_added, items_removed, is_empty } => {
            assert!(items_added.is_empty());
            assert!(items_removed.is_empty());
            // A bare hint says so.
            assert!(is_empty);
        }
        other => panic!("{other:?}"),
    }
}

#[test]
fn translate_library_changed_carries_scan_deltas() {
    let out: Outbound<u64> = translate_broadcast(SocketBroadcast::LibraryChanged {
        added: vec!["10".into(), "20".into()],
        removed: vec!["30".into()],
    });
    match out.data {
        Payload::LibraryChanged { items_added, items_removed, is_empty } => {
            assert_eq!(items_added, vec!["10", "20"]);
            assert_eq!(items_removed, vec!["30"]);
            assert!(!is_empty);
        }
        other => panic!("{other:?}"),
    }
}

#[test]
fn translate_member_left_carries_username_not_uuid() {
    let out: Outbound<u64> = translate_outbound(
        &ServerMsg::MemberLeft { member_id: "m-1".into(), name: "jana".into() },
        &ctx(Some("g-1"), None),
        0,
    )
    .unwrap();
    match out.data {
        Payload::GroupUpdate(u) => {
            assert_eq!(u.kind, "UserLeft");
            assert!(matches!(u.data, UpdateBody::Name(n) if n == "jana"));
        }
        other => panic!("{other:?}"),
    }
}

#[test]
fn translate_userdata_changed_carries_full_dto_entries() {
    let mut entry = serde_json::Map::new();
    entry.insert("ItemId".into(), "0000000000000000000000000000002a".into());
    entry.insert("Key".into(), "42".into());
    entry.insert("Played".into(), true.into());
    entry.insert("IsFavorite".into(), false.into());
    entry.insert("PlayCount".into(), 1.into());
    entry.insert("PlaybackPositionTicks".into(), 0.into());
    entry.insert("PlayedPercentage".into(), 0.0.into());
    let entry = serde_json::Value::Object(entry);
    let out = translate_broadcast(SocketBroadcast::UserDataChanged {
        user_id: "u-1".into(),
        entries: vec![entry.clone()],
    });
    assert_eq!(out.message_type, "UserDataChanged");
    match out.data {
        Payload::UserDataChanged { user_id, user_data_list } => {
            assert_eq!(user_id, "u-1");
            assert_eq!(user_data_list[0], entry);
        }
        other => panic!("{other:?}"),
    }
}

#[test]
fn translate_playback_progress_emits_sessions_outbound() {
    let out: Outbound<u64> = translate_broadcast(SocketBroadcast::PlaybackProgress {
        session_id: "s-1".into(),
        user_id: "u-1".into(),
        item_id: "42".into(),
        position_ticks: 12_345_000,
        is_paused: true,
    });
    assert_eq!(out.message_type, "Sessions");
    match out.data {
        Payload::Sessions { id, user_id, item_id, position_ticks, is_paused } => {
            assert_eq!(id, "s-1");
            assert_eq!(user_id, "u-1");
            assert_eq!(item_id, "42");
            assert_eq!(position_ticks, 12_345_000);
            assert!(is_paused);
        }
        other => panic!("{other:?}"),
    }
}

fn command(name: &str, arg: u64, seek: Option<u64>) -> Outbound<u64> {
    translate_broadcast(SocketBroadcast::SessionCommand {
        session_id: "s-1".into(),
        command: name.into(),
        arg,
        seek_position_ticks: seek,
    })
}

#[test]
fn translate_session_command_emits_playstate_outbound() {
    let out = command("Pause", 0, None);
    assert_eq!(out.message_type, "PlayState");
    match out.data {
        Payload::PlayState { session_id, command, .. } => {
            assert_eq!(session_id, "s-1");
            assert_eq!(command, "Pause");
        }
        other => panic!("{other:?}"),
    }
}

#[test]
fn translate_session_command_passes_seek_position_ticks_through() {
    match command("Seek", 0, Some(9876543)).data {
        Payload::PlayState { seek_position_ticks, .. } => {
            assert_eq!(seek_position_ticks, Some(9876543))
        }
        other => panic!("{other:?}"),
    }
}

#[test]
fn translate_session_command_routes_general_commands_as_general_command() {
    let out = command("SetVolume", 60, None);
    assert_eq!(out.message_type, "GeneralCommand");
    match out.data {
        Payload::GeneralCommand { name, arguments, .. } => {
            assert_eq!(name, "SetVolume");
            assert_eq!(arguments, 60);
        }
        other => panic!("{other:?}"),
    }
}

#[test]
fn translate_session_command_togglemute_is_general_not_playstate() {
    assert_eq!(command("ToggleMute", 0, None).message_type, "GeneralCommand");
    assert!(!is_playstate_command("ToggleMute"));
    assert!(is_playstate_command("Seek"));
}

#[test]
fn inbound_holds_a_message_and_its_payload() {
    let m = Inbound {
        message_type: "SyncPlayJoinGroup".into(),
        message_id: Some("abc".into()),
        join: Some(SyncPlayJoinData {
            group_id: "00000000-0000-0000-0000-000000000001".into(),
        }),
        play: None,
        seek: None,
    };
    assert_eq!(m.message_type, "SyncPlayJoinGroup");
    assert_eq!(m.join.unwrap().group_id, "00000000-0000-0000-0000-000000000001");
}

#[test]
fn outbound_messages_have_ids_of_their_own() {
    let a: Outbound<u64> = Outbound::new("ForceKeepAlive", Payload::Number(60));
    let b: Outbound<u64> = Outbound::new("ForceKeepAlive", Payload::Number(60));
    assert_eq!(a.message_type, "ForceKeepAlive");
    assert_eq!(a.message_id.len(), 32);
    assert!(a.message_id.chars().all(|c| c.is_ascii_digit() || ('a'..='f').contains(&c)));
    assert_ne!(a.message_id, b.message_id);
}

#[test]
fn users_are_not_told_of_each_other() {
    let for_other = forward_broadcast(
        SocketBroadcast::<u64>::UserDataChanged { user_id: "u-1".into(), entries: vec![] },
        "u-2",
    );
    assert!(for_other.is_none());
    let for_self = forward_broadcast(
        SocketBroadcast::<u64>::UserDataChanged { user_id: "u-1".into(), entries: vec![] },
        "u-1",
    );
    assert!(for_self.is_some());
}

#[test]
fn query_strings_are_decoded() {
    assert_eq!(percent_decode("a%20b"), "a b");
    assert_eq!(device_id_from_query("x=1&deviceId=tv%2D1"), Some("tv-1".to_string()));
    assert_eq!(device_id_from_query("x=1"), None);
}

#[test]
fn queue_reasons_have_the_clients_names() {
    assert_eq!(play_queue_reason("next_item"), "NextItem");
    assert_eq!(play_queue_reason("anything"), "NewPlaylist");
}

#[test]
fn a_newer_socket_keeps_the_membership() {
    assert!(teardown_due(false, 3, 3));
    assert!(!teardown_due(false, 3, 4));
}

#[test]
fn syncplay_list_empty_when_no_groups() {
    assert!(list_groups(&Some(vec![]), 0).is_empty());
    assert!(list_groups(&None, 0).is_empty());
}

#[test]
fn syncplay_list_returns_active_group() {
    let snap = GroupSnapshot {
        id: "g-1".into(),
        group_name: "Film night".into(),
        play_state: GroupPlayState::Waiting,
        participants: vec!["jana".into()],
    };
    let groups = list_groups(&Some(vec![None, Some(snap)]), 5);
    assert_eq!(groups.len(), 1);
    assert_eq!(groups[0].group_id, "g-1");
    assert_eq!(groups[0].state, "Waiting");
    assert_eq!(groups[0].last_updated_unix_ms, 5);
}

#[test]
fn a_group_without_a_name_is_named_after_its_founder() {
    assert_eq!(group_name(&Some("Film night".into()), &None), "Film night");
    assert_eq!(group_name(&None, &Some("jana".into())), "jana's Group");
}
