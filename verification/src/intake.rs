//! Intake of one notification request: header checks, URL checks, and the
//! hand-over to the queue.
//!
//! The checks run in a fixed order and the first failure wins: missing
//! authorisation, failed authorisation lookup, missing user agent, missing
//! or empty URL, URL without an `http` scheme prefix.  A valid request is
//! stored and always answered `Success!`, whatever the queue decided: a
//! caller must not learn about server-side duplicate state.

use vstd::prelude::*;
use vstd::string::{StrSliceExecFns, StringExecFns};
use crate::auth::{AuthTable, names_of, spec_first_exact, spec_first_hybrid};
use crate::msg::{Medium, Ping, PingModel, Reason, spec_parse_medium, spec_parse_reason};
use crate::store::{QueueStore, spec_add};
use crate::text::{has_http_scheme, spec_has_http_scheme, str_eq};

verus! {

/// Connection-level facts the HTTP layer carries alongside a request.
#[derive(Clone, Debug)]
pub struct AppState {
    pub state_thing: String,
    pub remote_ip: String,
    pub version: String,
}

/// A plain HTTP answer: a status code and a text body.
pub struct HttpReply {
    pub status: u16,
    pub body: String,
}

/// What the notification endpoint decided: render the landing page, or
/// answer with a status and body.
pub enum PingOutcome {
    Landing,
    Done(HttpReply),
}

/// The views of a list of query parameters.
pub open spec fn params_view(ps: Seq<(String, String)>) -> Seq<(Seq<char>, Seq<char>)> {
    ps.map_values(|p: (String, String)| (p.0@, p.1@))
}

/// The value of the last query parameter with this key, if any.
pub open spec fn spec_param(ps: Seq<(Seq<char>, Seq<char>)>, key: Seq<char>) -> Option<Seq<char>>
    decreases ps.len(),
{
    if ps.len() == 0 {
        None
    } else if ps.last().0 == key {
        Some(ps.last().1)
    } else {
        spec_param(ps.drop_last(), key)
    }
}

/// Whether the authorisation header resolves to a publisher, by exact
/// lookup or by hybrid-prefix lookup.
pub open spec fn auth_ok(table: Seq<crate::auth::AuthRecordModel>, token: Seq<char>) -> bool {
    spec_first_exact(table, token) is Some || spec_first_hybrid(table, token) is Some
}

/// The notification a valid request describes: the URL as received, the
/// request time, and the decoded reason and medium, with their defaults.
pub open spec fn spec_intake_ping(ps: Seq<(Seq<char>, Seq<char>)>, now: u64) -> PingModel {
    PingModel {
        url: match spec_param(ps, "url"@) {
            None => Seq::empty(),
            Some(u) => u,
        },
        time: now,
        reason: match spec_param(ps, "reason"@) {
            None => Reason::Update,
            Some(t) => spec_parse_reason(t),
        },
        medium: match spec_param(ps, "medium"@) {
            None => Medium::Podcast,
            Some(t) => spec_parse_medium(t),
        },
    }
}

/// Whether the request's URL parameter is missing or empty.
pub open spec fn url_missing(ps: Seq<(Seq<char>, Seq<char>)>) -> bool {
    match spec_param(ps, "url"@) {
        None => true,
        Some(u) => u.len() == 0,
    }
}

/// Whether the request's URL parameter carries an `http` scheme prefix.
pub open spec fn url_scheme_ok(ps: Seq<(Seq<char>, Seq<char>)>) -> bool {
    match spec_param(ps, "url"@) {
        None => false,
        Some(u) => spec_has_http_scheme(u),
    }
}

/// Handles one notification request.  Checks run in order; the first
/// failure answers at once and leaves the queue unchanged.  A request with
/// no query parameters asks for the landing page.  A valid request is
/// handed to the queue and answered `Success!` whatever the queue decided.
pub fn ping(
    table: &AuthTable,
    store: &mut QueueStore,
    authorization: Option<&String>,
    user_agent: Option<&String>,
    params: &Vec<(String, String)>,
    now: u64,
) -> (r: PingOutcome)
    requires
        old(store).wf(),
    ensures
        final(store).wf(),
        ({
            let ps = params_view(params@);
            let ok_auth = authorization matches Some(a) && auth_ok(table@, a@);
            if ps.len() == 0 {
                r is Landing && final(store)@ == old(store)@
            } else if authorization is None {
                (r matches PingOutcome::Done(h) && h.status == 401 && h.body@
                    == "Invalid Authorization header"@) && final(store)@ == old(store)@
            } else if !ok_auth {
                (r matches PingOutcome::Done(h) && h.status == 401 && h.body@
                    == "Bad Authorization header check"@) && final(store)@ == old(store)@
            } else if user_agent is None {
                (r matches PingOutcome::Done(h) && h.status == 401 && h.body@
                    == "User-Agent header is required"@) && final(store)@ == old(store)@
            } else if url_missing(ps) {
                (r matches PingOutcome::Done(h) && h.status == 400 && h.body@
                    == "Url parameter is missing.  Call as /?url=<podcast_url>"@)
                    && final(store)@ == old(store)@
            } else if !url_scheme_ok(ps) {
                (r matches PingOutcome::Done(h) && h.status == 400 && h.body@
                    == "Urls must contain a valid protocol schema prefix, like http:// or https://"@)
                    && final(store)@ == old(store)@
            } else {
                (r matches PingOutcome::Done(h) && h.status == 200 && h.body@ == "Success!"@)
                    && final(store)@ == spec_add(old(store)@, spec_intake_ping(ps, now))
            }
        }),
{
    if params.len() == 0 {
        return PingOutcome::Landing;
    }
    match authorization {
        None => {
            return PingOutcome::Done(
                HttpReply {
                    status: 401,
                    body: String::from_str("Invalid Authorization header"),
                },
            );
        },
        Some(auth_header) => {
            let known = match table.check_auth(auth_header.as_str()) {
                Some(_) => true,
                None => match table.check_auth_hybrid(auth_header.as_str()) {
                    Some(_) => true,
                    None => false,
                },
            };
            if !known {
                return PingOutcome::Done(
                    HttpReply {
                        status: 401,
                        body: String::from_str("Bad Authorization header check"),
                    },
                );
            }
        },
    }
    if user_agent.is_none() {
        return PingOutcome::Done(
            HttpReply {
                status: 401,
                body: String::from_str("User-Agent header is required"),
            },
        );
    }
    let url_param = get_param(params, "url");
    let url = match url_param {
        None => {
            return PingOutcome::Done(
                HttpReply {
                    status: 400,
                    body: String::from_str("Url parameter is missing.  Call as /?url=<podcast_url>"),
                },
            );
        },
        Some(u) => {
            if u.unicode_len() == 0 {
                return PingOutcome::Done(
                    HttpReply {
                        status: 400,
                        body: String::from_str(
                            "Url parameter is missing.  Call as /?url=<podcast_url>",
                        ),
                    },
                );
            }
            u
        },
    };
    if !has_http_scheme(url.as_str()) {
        return PingOutcome::Done(
            HttpReply {
                status: 400,
                body: String::from_str(
                    "Urls must contain a valid protocol schema prefix, like http:// or https://",
                ),
            },
        );
    }
    let reason = match get_param(params, "reason") {
        None => Reason::Update,
        Some(t) => Reason::from_text(t.as_str()),
    };
    let medium = match get_param(params, "medium") {
        None => Medium::Podcast,
        Some(t) => Medium::from_text(t.as_str()),
    };
    let ping_in = Ping { url, time: now, reason, medium };
    proof {
        assert(ping_in@ == spec_intake_ping(params_view(params@), now));
    }
    store.add_ping_to_queue(&ping_in);
    PingOutcome::Done(HttpReply { status: 200, body: String::from_str("Success!") })
}

/// The newline-terminated lines of the publisher names, in order.
pub open spec fn spec_publishers_page(names: Seq<Seq<char>>) -> Seq<char>
    decreases names.len(),
{
    if names.len() == 0 {
        Seq::empty()
    } else {
        spec_publishers_page(names.drop_last()) + names.last() + "\n"@
    }
}

/// Answers the publisher listing: one name per line, or a 401 when the
/// request carries no user agent.
pub fn publishers(table: &AuthTable, user_agent: Option<&String>) -> (r: HttpReply)
    ensures
        user_agent is None ==> r.status == 401 && r.body@ == "User-Agent header is required"@,
        user_agent is Some ==> r.status == 200 && r.body@ == spec_publishers_page(
            names_of(table@),
        ),
{
    if user_agent.is_none() {
        return HttpReply { status: 401, body: String::from_str("User-Agent header is required") };
    }
    let pubs = table.get_publishers();
    let ghost names = names_of(table@);
    let mut body = String::new();
    let n = pubs.len();
    for i in 0..n
        invariant
            n == pubs@.len(),
            crate::auth::pubs_view(pubs@) == names,
            body@ == spec_publishers_page(names.take(i as int)),
    {
        body.append(pubs[i].name.as_str());
        body.append("\n");
        proof {
            assert(names.take(i as int + 1).drop_last() =~= names.take(i as int));
            assert(names.take(i as int + 1).last() == names[i as int]);
            assert(names[i as int] == pubs@[i as int].name@);
        }
    }
    proof {
        assert(names.take(n as int) =~= names);
    }
    HttpReply { status: 200, body }
}

/// The value of the last query parameter with this key, copied out.
fn get_param(params: &Vec<(String, String)>, key: &str) -> (r: Option<String>)
    ensures
        crate::auth::opt_view(r) == spec_param(params_view(params@), key@),
{
    let mut found: Option<String> = None;
    let n = params.len();
    proof {
        assert(params_view(params@).take(0) =~= Seq::<(Seq<char>, Seq<char>)>::empty());
    }
    for i in 0..n
        invariant
            n == params@.len(),
            crate::auth::opt_view(found) == spec_param(params_view(params@).take(i as int), key@),
    {
        proof {
            assert(params_view(params@).take(i as int + 1).drop_last() =~= params_view(
                params@,
            ).take(i as int));
            assert(params_view(params@).take(i as int + 1).last() == params_view(params@)[i as int]);
            assert(params_view(params@)[i as int].0 == params@[i as int].0@);
            assert(params_view(params@)[i as int].1 == params@[i as int].1@);
        }
        if str_eq(params[i].0.as_str(), key) {
            found = Some(params[i].1.clone());
        }
    }
    proof {
        assert(params_view(params@).take(n as int) =~= params_view(params@));
    }
    found
}

} // verus!
