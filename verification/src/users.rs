//! Signing in, by name and with a code.

use vstd::prelude::*;
use vstd::string::*;
use crate::answer::{ApiError, Refusal};
use crate::ids::{self, random_id};
use crate::query_string::{self, Pair};
use crate::seqs;
use crate::text::{self, eq_ignore_case, eq_text, trimmed};

verus! {

// ----------------------------------------------------------------- parameters

/// The names and values in a query string, decoded, as `serde_urlencoded` reads
/// them, and nothing where it refuses it.
pub uninterp spec fn decoded_query(query: Seq<char>) -> Option<Seq<(Seq<char>, Seq<char>)>>;

/// The views of a row of pairs that may not be there.
pub open spec fn opt_pairs(o: Option<Vec<(String, String)>>) -> Option<Seq<Pair>> {
    match o {
        Some(v) => Some(query_string::pair_views(v@)),
        None => None,
    }
}

/// `actix_web::web::Query::from_query`: the names and values in a query string,
/// in their order and decoded. They depend on the string alone; what the
/// decoding makes of it is not spelled out here.
#[verifier::external_body]
fn decode_query(query: &str) -> (r: Option<Vec<(String, String)>>)
    ensures
        opt_pairs(r) == decoded_query(query@),
{
    match actix_web::web::Query::<Vec<(String, String)>>::from_query(query) {
        Ok(q) => Some(q.into_inner()),
        Err(_) => None,
    }
}

/// The value that a row of pairs ends with for a name.
pub open spec fn last_value(pairs: Seq<Pair>, name: Seq<char>) -> Option<Seq<char>>
    decreases pairs.len(),
{
    if pairs.len() == 0 {
        None
    } else if pairs.last().0 == name {
        Some(pairs.last().1)
    } else {
        last_value(pairs.drop_last(), name)
    }
}

pub open spec fn named(key: Seq<char>) -> spec_fn(Pair) -> bool {
    |p: Pair| text::eq_ci(p.0, key)
}

/// The value of a parameter, whatever the case of its name: of the first
/// spelling that occurs, the value that it has last.
pub open spec fn param(pairs: Seq<Pair>, key: Seq<char>) -> Option<Seq<char>> {
    match seqs::first_such(pairs, named(key)) {
        Some(p) => last_value(pairs, p.0),
        None => None,
    }
}

fn find_last_value(pairs: &Vec<(String, String)>, name: &str) -> (r: Option<String>)
    ensures
        text::opt_text(r) == last_value(query_string::pair_views(pairs@), name@),
{
    let ghost views = query_string::pair_views(pairs@);
    let mut n: usize = pairs.len();
    proof {
        assert(views.take(n as int) =~= views);
    }
    while n > 0
        invariant
            n <= pairs@.len(),
            views == query_string::pair_views(pairs@),
            last_value(views, name@) == last_value(views.take(n as int), name@),
        decreases n,
    {
        proof {
            assert(views.take(n as int).drop_last() =~= views.take(n - 1));
            assert(views.take(n as int).last() == (pairs@[n - 1].0@, pairs@[n - 1].1@));
        }
        if eq_text(pairs[n - 1].0.as_str(), name) {
            return Some(pairs[n - 1].1.clone());
        }
        n -= 1;
    }
    None
}

/// The value of a parameter among decoded ones, whatever the case of its name.
pub fn pick_param(pairs: &Vec<(String, String)>, key: &str) -> (r: Option<String>)
    ensures
        text::opt_text(r) == param(query_string::pair_views(pairs@), key@),
{
    let ghost views = query_string::pair_views(pairs@);
    let mut i: usize = 0;
    while i < pairs.len()
        invariant
            i <= pairs@.len(),
            views == query_string::pair_views(pairs@),
            forall|k: int| 0 <= k < i ==> !named(key@)(#[trigger] views[k]),
        decreases pairs@.len() - i,
    {
        proof {
            assert(views[i as int] == (pairs@[i as int].0@, pairs@[i as int].1@));
        }
        if eq_ignore_case(pairs[i].0.as_str(), key) {
            proof {
                seqs::lemma_first_such(views, named(key@), i as int);
            }
            return find_last_value(pairs, pairs[i].0.as_str());
        }
        i += 1;
    }
    proof {
        seqs::lemma_first_such(views, named(key@), i as int);
    }
    None
}

/// The value of a parameter in a query string, whatever the case of its name.
pub fn query_param_ci(query: &str, key: &str) -> (r: Option<String>)
    ensures
        text::opt_text(r) == (match decoded_query(query@) {
            Some(pairs) => param(pairs, key@),
            None => None,
        }),
{
    match decode_query(query) {
        Some(pairs) => pick_param(&pairs, key),
        None => None,
    }
}

/// The value of a parameter that has to be there.
pub fn require_value(given: Option<String>, missing: &str) -> (r: Result<String, ApiError>)
    ensures
        match r {
            Ok(v) => text::trim(v@).len() > 0 && given == Some(v),
            Err(e) => (given is None || text::trim(given->0@).len() == 0) && e.says(
                Refusal::BadRequest,
                missing@,
            ),
        },
{
    match given {
        Some(v) => if trimmed(v.as_str()).as_str().is_empty() {
            Err(ApiError::BadRequest(missing.to_owned()))
        } else {
            Ok(v)
        },
        None => Err(ApiError::BadRequest(missing.to_owned())),
    }
}

/// Whether an answer is the value of a parameter, or the refusal of a request
/// without it.
pub open spec fn required(
    r: Result<String, ApiError>,
    value: Option<Seq<char>>,
    missing: Seq<char>,
) -> bool {
    match r {
        Ok(v) => value == Some(v@) && text::trim(v@).len() > 0,
        Err(e) => (value is None || text::trim(value->0).len() == 0) && e.says(
            Refusal::BadRequest,
            missing,
        ),
    }
}

// --------------------------------------------------------------- quick connect

/// The code that a signed-in user vouches for.
pub fn quick_connect_code(query: &str) -> (r: Result<String, ApiError>)
    ensures
        required(
            r,
            match decoded_query(query@) {
                Some(pairs) => param(pairs, "code"@),
                None => None,
            },
            "Code query param required"@,
        ),
{
    require_value(query_param_ci(query, "code"), "Code query param required")
}

/// The secret that a client asks after.
pub fn quick_connect_secret(query: &str) -> (r: Result<String, ApiError>)
    ensures
        required(
            r,
            match decoded_query(query@) {
                Some(pairs) => param(pairs, "secret"@),
                None => None,
            },
            "Secret query param required"@,
        ),
{
    require_value(query_param_ci(query, "secret"), "Secret query param required")
}

/// The secret that a client signs in with.
pub fn quick_connect_credential(secret: String) -> (r: Result<String, ApiError>)
    ensures
        required(r, Some(secret@), "Secret required"@),
{
    require_value(Some(secret), "Secret required")
}

/// A code that was vouched for has to be one that was given out.
pub fn quick_connect_authorize(known: bool) -> (r: Result<(), ApiError>)
    ensures
        r is Ok <==> known,
        r matches Err(e) ==> e.says(Refusal::NotFound, "unknown code"@),
{
    if known {
        Ok(())
    } else {
        Err(ApiError::NotFound("unknown code".to_owned()))
    }
}

/// A request to sign in, as the server keeps it.
pub struct PendingEntry {
    pub code: String,
    pub secret: String,
    pub device_id: String,
    pub authorized_by: Option<String>,
}

/// What a client that asks to sign in with a code is told. Clients want all of
/// it, so what they do not say of themselves is empty and not left out.
pub struct ConnectStart {
    pub code: String,
    pub secret: String,
    pub device_id: String,
    pub device_name: String,
    pub app_name: String,
    pub app_version: String,
    pub authenticated: bool,
    pub date_added: String,
}

/// A text, empty where there is none.
pub open spec fn text_or_empty(o: Option<String>) -> Seq<char> {
    match o {
        Some(s) => s@,
        None => Seq::empty(),
    }
}

fn or_empty(o: &Option<String>) -> (r: String)
    ensures
        r@ == text_or_empty(*o),
{
    match o {
        Some(s) => s.clone(),
        None => {
            let r: String = String::new();
            proof {
                assert(r@ =~= Seq::<char>::empty());
            }
            r
        },
    }
}

/// Answers a request to sign in with a code. `date_added` is the time of the
/// request as clients read it.
pub fn quick_connect_initiate(
    entry: PendingEntry,
    device: &Option<String>,
    client: &Option<String>,
    version: &Option<String>,
    date_added: String,
) -> (r: ConnectStart)
    ensures
        r.code == entry.code,
        r.secret == entry.secret,
        r.device_id == entry.device_id,
        r.device_name@ == text_or_empty(*device),
        r.app_name@ == text_or_empty(*client),
        r.app_version@ == text_or_empty(*version),
        !r.authenticated,
        r.date_added == date_added,
{
    ConnectStart {
        code: entry.code,
        secret: entry.secret,
        device_id: entry.device_id,
        device_name: or_empty(device),
        app_name: or_empty(client),
        app_version: or_empty(version),
        authenticated: false,
        date_added,
    }
}

/// What a client that asks after its request is told.
pub struct ConnectStatus {
    pub code: String,
    pub secret: String,
    pub device_id: String,
    pub authenticated: bool,
}

/// How a request to sign in stands. Asking changes nothing.
pub fn quick_connect_connect(entry: Option<PendingEntry>) -> (r: Result<ConnectStatus, ApiError>)
    ensures
        match entry {
            Some(p) => r matches Ok(s) && s.code == p.code && s.secret == p.secret && s.device_id
                == p.device_id && s.authenticated == (p.authorized_by is Some),
            None => r matches Err(e) && e.says(
                Refusal::NotFound,
                "unknown or expired secret"@,
            ),
        },
{
    match entry {
        Some(p) => Ok(
            ConnectStatus {
                code: p.code,
                secret: p.secret,
                device_id: p.device_id,
                authenticated: p.authorized_by.is_some(),
            },
        ),
        None => Err(ApiError::NotFound("unknown or expired secret".to_owned())),
    }
}

/// Who a client signs in as, and on which device, once its secret was taken: the
/// user who vouched for it.
pub fn authenticate_with_quick_connect(entry: Option<PendingEntry>) -> (r: Result<
    (String, String),
    ApiError,
>)
    ensures
        match r {
            Ok((user, device)) => entry is Some && entry->0.authorized_by == Some(user) && device
                == entry->0.device_id,
            Err(e) => if entry is None {
                e.says(Refusal::Unauthorized, "quick connect not authorized"@)
            } else {
                entry->0.authorized_by is None && e.says(
                    Refusal::Internal,
                    "consumed entry lacks authorizer"@,
                )
            },
        },
{
    match entry {
        Some(p) => match p.authorized_by {
            Some(user) => Ok((user, p.device_id)),
            None => Err(ApiError::Internal("consumed entry lacks authorizer".to_owned())),
        },
        None => Err(ApiError::Unauthorized("quick connect not authorized".to_owned())),
    }
}

// -------------------------------------------------------------------- sessions

/// The id of the device that a client signs in on: the one that it names, else
/// its device's name, and else a new one of thirty-two hexadecimal digits.
pub fn session_device_id(device_id: &Option<String>, device: &Option<String>) -> (r: String)
    ensures
        device_id is Some ==> r@ == device_id->0@,
        device_id is None && device is Some ==> r@ == device->0@,
        device_id is None && device is None ==> r@.len() == 32 && forall|i: int|
            0 <= i < 32 ==> ids::is_lower_hex(#[trigger] r@[i]),
{
    match device_id {
        Some(d) => d.clone(),
        None => match device {
            Some(d) => d.clone(),
            None => random_id(),
        },
    }
}

/// How a client calls itself.
pub struct ClientLabels {
    pub device_name: String,
    pub client: String,
    pub application_version: String,
}

/// A session as the client that opened it is told.
pub struct SessionInfo {
    pub id: String,
    pub user_id: String,
    pub user_name: String,
    pub device_id: String,
    pub device_name: String,
    pub client: String,
    pub application_version: String,
    pub server_id: String,
    pub last_activity_date: String,
    pub last_playback_check_in: String,
    pub is_active: bool,
    pub supports_media_control: bool,
    pub supports_remote_control: bool,
    pub has_custom_device_name: bool,
}

/// Opens a session under a new id. `now` is the time as clients read it.
pub fn open_session(
    user_id: &str,
    user_name: &str,
    device_id: String,
    labels: ClientLabels,
    server_id: &str,
    now: &str,
) -> (r: SessionInfo)
    ensures
        r.id@.len() == 32,
        forall|i: int| 0 <= i < 32 ==> ids::is_lower_hex(#[trigger] r.id@[i]),
        r.user_id@ == user_id@,
        r.user_name@ == user_name@,
        r.device_id == device_id,
        r.device_name == labels.device_name,
        r.client == labels.client,
        r.application_version == labels.application_version,
        r.server_id@ == server_id@,
        r.last_activity_date@ == now@,
        r.last_playback_check_in@ == now@,
        r.is_active,
        !r.supports_media_control && !r.supports_remote_control && !r.has_custom_device_name,
{
    SessionInfo {
        id: random_id(),
        user_id: user_id.to_owned(),
        user_name: user_name.to_owned(),
        device_id,
        device_name: labels.device_name,
        client: labels.client,
        application_version: labels.application_version,
        server_id: server_id.to_owned(),
        last_activity_date: now.to_owned(),
        last_playback_check_in: now.to_owned(),
        is_active: true,
        supports_media_control: false,
        supports_remote_control: false,
        has_custom_device_name: false,
    }
}

/// Why a user could not be signed in.
pub enum AuthFailure {
    InvalidCredentials,
    UserNotFound,
    Other(String),
}

/// What a client is told of a failed sign-in. Whether the name or the password
/// was wrong it is not told.
pub fn sign_in_refusal(f: AuthFailure) -> (r: ApiError)
    ensures
        match f {
            AuthFailure::Other(why) => r.says(Refusal::Internal, why@),
            _ => r.says(Refusal::Unauthorized, "invalid credentials"@),
        },
{
    match f {
        AuthFailure::InvalidCredentials => ApiError::Unauthorized("invalid credentials".to_owned()),
        AuthFailure::UserNotFound => ApiError::Unauthorized("invalid credentials".to_owned()),
        AuthFailure::Other(why) => ApiError::Internal(why),
    }
}

/// What the activity list says of a sign-in.
pub fn sign_in_notice(name: &str, quick_connect: bool) -> (r: String)
    ensures
        r@ == name@ + (if quick_connect {
            " logged in via Quick Connect"@
        } else {
            " logged in"@
        }),
{
    let mut out: String = name.to_owned();
    if quick_connect {
        out.append(" logged in via Quick Connect");
    } else {
        out.append(" logged in");
    }
    out
}

// ----------------------------------------------------------------------- laws

/// A parameter is found under any spelling of its name.
pub proof fn law_parameter_names_have_no_case(pairs: Seq<Pair>, a: Seq<char>, b: Seq<char>)
    requires
        text::eq_ci(a, b),
    ensures
        param(pairs, a) == param(pairs, b),
    decreases pairs.len(),
{
    lemma_first_named(pairs, a, b);
}

proof fn lemma_first_named(pairs: Seq<Pair>, a: Seq<char>, b: Seq<char>)
    requires
        text::eq_ci(a, b),
    ensures
        seqs::first_such(pairs, named(a)) == seqs::first_such(pairs, named(b)),
    decreases pairs.len(),
{
    if pairs.len() > 0 {
        lemma_first_named(pairs.subrange(1, pairs.len() as int), a, b);
    }
}

/// A parameter has the value that stands under its name, whatever the case of
/// its letters; one that is not there has none.
pub proof fn law_parameters_have_their_values(pairs: Seq<Pair>, key: Seq<char>, i: int)
    requires
        0 <= i < pairs.len(),
        text::lower(pairs[i].0) == text::lower(key),
        forall|k: int|
            0 <= k < pairs.len() && k != i ==> text::lower((#[trigger] pairs[k]).0) != text::lower(
                key,
            ),
    ensures
        param(pairs, key) == Some(pairs[i].1),
{
    assert forall|k: int| 0 <= k < i implies !named(key)(#[trigger] pairs[k]) by {}
    seqs::lemma_first_such(pairs, named(key), i);
    lemma_last_value(pairs, pairs[i].0, i);
}

proof fn lemma_last_value(pairs: Seq<Pair>, name: Seq<char>, i: int)
    requires
        0 <= i < pairs.len(),
        pairs[i].0 == name,
        forall|k: int| i < k < pairs.len() ==> (#[trigger] pairs[k]).0 != name,
    ensures
        last_value(pairs, name) == Some(pairs[i].1),
    decreases pairs.len(),
{
    if i < pairs.len() - 1 {
        assert(pairs[pairs.len() - 1].0 != name);
        assert(pairs.drop_last()[i] == pairs[i]);
        assert forall|k: int| i < k < pairs.drop_last().len() implies (
        #[trigger] pairs.drop_last()[k]).0 != name by {
            assert(pairs.drop_last()[k] == pairs[k]);
        }
        lemma_last_value(pairs.drop_last(), name, i);
    }
}

/// A parameter that no pair names has no value.
pub proof fn law_absent_parameters_have_none(pairs: Seq<Pair>, key: Seq<char>)
    requires
        forall|k: int|
            0 <= k < pairs.len() ==> text::lower((#[trigger] pairs[k]).0) != text::lower(key),
    ensures
        param(pairs, key) is None,
{
    assert forall|k: int| 0 <= k < pairs.len() implies !named(key)(#[trigger] pairs[k]) by {}
    seqs::lemma_first_such(pairs, named(key), pairs.len() as int);
}

/// A parameter that is given is handed on as it stands; one that is blank or
/// not given has its request refused as malformed, with the words for it.
pub proof fn law_parameters_are_required(
    r: Result<String, ApiError>,
    value: Option<Seq<char>>,
    missing: Seq<char>,
)
    requires
        required(r, value, missing),
    ensures
        value is Some && text::trim(value->0).len() > 0 ==> (r matches Ok(v) && v@ == value->0),
        value is None || text::trim(value->0).len() == 0 ==> (r matches Err(e) && e.says(
            Refusal::BadRequest,
            missing,
        )),
{
}

} // verus!
