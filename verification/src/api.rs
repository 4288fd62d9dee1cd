//! The web app's HTTP API: addresses, responses and what they mean.
use vstd::prelude::*;

use crate::db::{QuestionType, QuestionTypeView};
use crate::text::{
    after_pat, before_pat, chars_of, ends_with, find_from, has_suffix, i64_decimal, last_index_of,
    push_all, rfind_char, same_chars, signed_decimal, slice_chars, string_from_chars,
};

verus! {

// ---------------------------------------------------------------------------
// Addresses
// ---------------------------------------------------------------------------

/// `route` appended to `base`, with a `/` between them unless `base` ends
/// in one.
pub open spec fn joined_url(base: Seq<char>, route: Seq<char>) -> Seq<char> {
    if base.len() > 0 && base.last() == '/' {
        base + route
    } else {
        base + seq!['/'] + route
    }
}

/// The address of `route` under the base URL.
pub fn join_url(base: &str, route: &str) -> (s: String)
    ensures
        s@ == joined_url(base@, route@),
{
    let mut out = chars_of(base);
    if !(out.len() > 0 && out[out.len() - 1] == '/') {
        out.push('/');
    }
    push_all(&mut out, &chars_of(route));
    string_from_chars(&out)
}

/// Joining a route onto a normalized base URL puts exactly one `/` between
/// them: the base already ends in one.
pub proof fn law_join_onto_normalized_base(base: Seq<char>, route: Seq<char>)
    requires
        crate::config::normalized_base_url(base).len() > 0,
    ensures
        joined_url(crate::config::normalized_base_url(base), route) == crate::config::normalized_base_url(
            base,
        ) + route,
{
}

/// The route of the view of a desk, `desks/view/{desk_id}.json`.
pub fn desk_view_route(desk_id: i64) -> (s: String)
    ensures
        s@ == "desks/view/"@ + signed_decimal(desk_id as int) + ".json"@,
{
    let mut out = chars_of("desks/view/");
    push_all(&mut out, &i64_decimal(desk_id));
    push_all(&mut out, &chars_of(".json"));
    string_from_chars(&out)
}

/// The message for a list that could not be loaded, `what` naming it and
/// `status` being the HTTP status as the client writes it.
pub fn load_failed_message(what: &str, status: &str) -> (s: String)
    ensures
        s@ == "Could not load "@ + what@ + " (HTTP "@ + status@ + ")."@,
{
    let mut out = chars_of("Could not load ");
    push_all(&mut out, &chars_of(what));
    push_all(&mut out, &chars_of(" (HTTP "));
    push_all(&mut out, &chars_of(status));
    push_all(&mut out, &chars_of(")."));
    string_from_chars(&out)
}

// ---------------------------------------------------------------------------
// Certificates
// ---------------------------------------------------------------------------

/// The host of `url` as `Url::parse` reads it and `Url::host_str` gives it,
/// `None` when the text is not a URL or has no host.
pub uninterp spec fn url_host(url: Seq<char>) -> Option<Seq<char>>;

/// `reqwest::Url::parse` followed by `host_str`: the host of the parsed
/// URL, `None` when parsing fails or the URL has no host. The contract ties
/// the result to [`url_host`] of the text and says nothing more of it.
#[verifier::external_body]
fn parsed_url_host(url: &str) -> (h: Option<String>)
    ensures
        match h {
            Some(s) => url_host(url@) == Some(s@),
            None => url_host(url@) is None,
        },
{
    match reqwest::Url::parse(url) {
        Ok(parsed) => parsed.host_str().map(|host| host.to_owned()),
        Err(_) => None,
    }
}

/// `c` with ASCII letters made lower case.
pub open spec fn ascii_lower(c: char) -> char {
    if 65 <= c as u32 <= 90 {
        ((c as u32) + 32) as char
    } else {
        c
    }
}

/// `a` and `b` are equal ignoring the case of ASCII letters.
pub open spec fn eq_ignore_ascii_case(a: Seq<char>, b: Seq<char>) -> bool {
    a.len() == b.len() && forall|i: int| 0 <= i < a.len() ==> ascii_lower(#[trigger] a[i])
        == ascii_lower(b[i])
}

fn lower(c: char) -> (r: char)
    ensures
        r == ascii_lower(c),
{
    let u = c as u32;
    if 65 <= u && u <= 90 {
        match u + 32 {
            97 => 'a',
            98 => 'b',
            99 => 'c',
            100 => 'd',
            101 => 'e',
            102 => 'f',
            103 => 'g',
            104 => 'h',
            105 => 'i',
            106 => 'j',
            107 => 'k',
            108 => 'l',
            109 => 'm',
            110 => 'n',
            111 => 'o',
            112 => 'p',
            113 => 'q',
            114 => 'r',
            115 => 's',
            116 => 't',
            117 => 'u',
            118 => 'v',
            119 => 'w',
            120 => 'x',
            121 => 'y',
            _ => 'z',
        }
    } else {
        c
    }
}

fn eq_ignore_case_exec(a: &Vec<char>, b: &Vec<char>) -> (r: bool)
    ensures
        r == eq_ignore_ascii_case(a@, b@),
{
    if a.len() != b.len() {
        return false;
    }
    let mut k: usize = 0;
    while k < a.len()
        invariant
            a@.len() == b@.len(),
            k <= a@.len(),
            forall|i: int| 0 <= i < k ==> ascii_lower(#[trigger] a@[i]) == ascii_lower(b@[i]),
        decreases a@.len() - k,
    {
        if lower(a[k]) != lower(b[k]) {
            return false;
        }
        k = k + 1;
    }
    true
}

/// A host for which the widget accepts self-signed certificates: `localhost`
/// in any case, a name under `.loc`, `.local` or `.test`, or `127.0.0.1` or
/// `::1` written as such.
pub open spec fn local_host(host: Seq<char>) -> bool {
    ||| eq_ignore_ascii_case(host, "localhost"@)
    ||| ends_with(host, ".loc"@)
    ||| ends_with(host, ".local"@)
    ||| ends_with(host, ".test"@)
    ||| host == "127.0.0.1"@
    ||| host == "::1"@
}

/// Whether HTTPS certificates that do not verify are accepted for the base
/// URL `url`: only when it parses and its host is a local development host.
pub fn accepts_invalid_certs(url: &str) -> (b: bool)
    ensures
        b == (url_host(url@) matches Some(h) && local_host(h)),
{
    match parsed_url_host(url) {
        None => false,
        Some(host) => {
            let h = chars_of(host.as_str());
            eq_ignore_case_exec(&h, &chars_of("localhost")) || has_suffix(&h, &chars_of(".loc"))
                || has_suffix(&h, &chars_of(".local")) || has_suffix(&h, &chars_of(".test"))
                || same_chars(&h, &chars_of("127.0.0.1")) || same_chars(&h, &chars_of("::1"))
        },
    }
}

// ---------------------------------------------------------------------------
// Responses
// ---------------------------------------------------------------------------

/// What the server says about a posted tally.
#[derive(Debug, Clone)]
pub struct ApiStatus {
    pub success: Option<bool>,
    pub message: Option<String>,
}

/// The part of `body` from its first `{` to its last `}`, when the first
/// comes before the last.
pub open spec fn json_object_span(body: Seq<char>) -> Option<Seq<char>> {
    match (after_pat(body, seq!['{']), last_index_of(body, '}')) {
        (Some(_), Some(end)) => {
            let start = before_pat(body, seq!['{']).len() as int;
            if start >= end {
                None
            } else {
                Some(body.subrange(start, end + 1))
            }
        },
        _ => None,
    }
}

proof fn lemma_last_index_bounds(s: Seq<char>, c: char)
    ensures
        last_index_of(s, c) matches Some(j) ==> 0 <= j < s.len(),
    decreases s.len(),
{
    if s.len() > 0 && s.last() != c {
        lemma_last_index_bounds(s.drop_last(), c);
    }
}

/// The text to read as a JSON status object when the whole body is not one:
/// from the first `{` to the last `}`; see [`json_object_span`].
pub fn api_status_span(body: &str) -> (r: Option<String>)
    ensures
        match r {
            Some(s) => json_object_span(body@) == Some(s@),
            None => json_object_span(body@) is None,
        },
{
    let v = chars_of(body);
    let n = v.len();
    let mut open: Vec<char> = Vec::new();
    open.push('{');
    assert(open@ =~= seq!['{']);
    assert(v@.skip(0) =~= v@);
    let start = match find_from(&v, 0, &open) {
        None => {
            return None;
        },
        Some(i) => i,
    };
    assert(before_pat(v@, seq!['{']).len() == start) by {
        assert(v@.subrange(0, start as int).len() == start);
    }
    let end = match rfind_char(&v, '}') {
        None => {
            return None;
        },
        Some(j) => j,
    };
    proof {
        lemma_last_index_bounds(v@, '}');
    }
    if start >= end {
        return None;
    }
    let span = slice_chars(&v, start, end + 1);
    Some(string_from_chars(&span))
}

/// Why a posted tally counts as not saved, if it does: an explicit
/// `success: false` from the server (with its message, or a default one);
/// otherwise, unless `success: true` was sent or the HTTP status is a 2xx,
/// the server's message or one naming the status. `status_text` is the
/// status as the HTTP client writes it.
pub open spec fn tally_failure(status: u16, status_text: Seq<char>, success: Option<bool>, message: Option<
    Seq<char>,
>) -> Option<Seq<char>> {
    if success == Some(true) {
        None
    } else if success == Some(false) {
        Some(
            match message {
                Some(m) => m,
                None => "The server reported that the tally was not saved."@,
            },
        )
    } else if 200 <= status <= 299 {
        None
    } else {
        Some(
            match message {
                Some(m) => m,
                None => "The server rejected a tally (HTTP "@ + status_text + ")."@,
            },
        )
    }
}

/// Why a posted tally was not saved, if it was not; see [`tally_failure`].
pub fn tally_post_failed(status: u16, status_text: &str, parsed: Option<&ApiStatus>) -> (r: Option<
    String,
>)
    ensures
        ({
            let (success, message) = match parsed {
                Some(p) => (
                    p.success,
                    match p.message {
                        Some(m) => Some(m@),
                        None => None,
                    },
                ),
                None => (None, None),
            };
            match r {
                Some(s) => tally_failure(status, status_text@, success, message) == Some(s@),
                None => tally_failure(status, status_text@, success, message) is None,
            }
        }),
{
    let success = match parsed {
        Some(p) => p.success,
        None => None,
    };
    let message: Option<String> = match parsed {
        Some(p) => match &p.message {
            Some(m) => Some(m.clone()),
            None => None,
        },
        None => None,
    };
    match success {
        Some(true) => {
            return None;
        },
        Some(false) => {
            return Some(
                match message {
                    Some(m) => m,
                    None => "The server reported that the tally was not saved.".to_owned(),
                },
            );
        },
        None => {},
    }
    if 200 <= status && status <= 299 {
        return None;
    }
    Some(
        match message {
            Some(m) => m,
            None => {
                let mut out = chars_of("The server rejected a tally (HTTP ");
                push_all(&mut out, &chars_of(status_text));
                push_all(&mut out, &chars_of(")."));
                string_from_chars(&out)
            },
        },
    )
}

/// A question type as a desk view lists it.
#[derive(Debug, Clone)]
pub struct RawQuestionType {
    pub id: i64,
    pub name: String,
    pub description: String,
}

/// The question types of a desk view, each given its place in the list as
/// its sort order.
pub fn question_types_from_raw(raw: Vec<RawQuestionType>) -> (r: Vec<QuestionType>)
    requires
        raw@.len() <= i64::MAX,
    ensures
        r@.len() == raw@.len(),
        forall|i: int|
            0 <= i < raw@.len() ==> (#[trigger] r@[i])@ == (QuestionTypeView {
                id: raw@[i].id,
                name: raw@[i].name@,
                description: raw@[i].description@,
                sort_order: i as i64,
            }),
{
    let mut r: Vec<QuestionType> = Vec::new();
    let mut k: usize = 0;
    while k < raw.len()
        invariant
            k <= raw@.len() <= i64::MAX,
            r@.len() == k,
            forall|i: int|
                0 <= i < k ==> (#[trigger] r@[i])@ == (QuestionTypeView {
                    id: raw@[i].id,
                    name: raw@[i].name@,
                    description: raw@[i].description@,
                    sort_order: i as i64,
                }),
        decreases raw@.len() - k,
    {
        let item = &raw[k];
        r.push(
            QuestionType {
                id: item.id,
                name: item.name.clone(),
                description: item.description.clone(),
                sort_order: k as i64,
            },
        );
        k = k + 1;
    }
    r
}


/// What a tally post's answer means: `success: true` always means saved;
/// `success: false` always means not saved; when the server says neither,
/// a 2xx status means saved whatever message comes with it, and any other
/// status means not saved.
pub proof fn law_tally_saved_when_server_accepts(
    status: u16,
    status_text: Seq<char>,
    success: Option<bool>,
    message: Option<Seq<char>>,
)
    ensures
        success == Some(true) ==> tally_failure(status, status_text, success, message) is None,
        success == Some(false) ==> tally_failure(status, status_text, success, message) is Some,
        success != Some(false) && 200 <= status <= 299 ==> tally_failure(
            status,
            status_text,
            success,
            message,
        ) is None,
        success is None && !(200 <= status <= 299) ==> tally_failure(
            status,
            status_text,
            success,
            message,
        ) is Some,
{
}

} // verus!
