//! Webhooks: the request a webhook makes, and which webhooks a record
//! update triggers.
use vstd::prelude::*;
use vstd::string::StringExecFns;

use http::header::{HeaderName, HeaderValue};

use crate::config::parse::{Resolv, WebHook};
use crate::error::Error;
use crate::ip::Gip;
use crate::types::{placeholder_resolve, resolves_to};

verus! {

/// The HTTP method of a webhook.
#[derive(Debug, Clone, Copy, PartialEq, Eq, Structural)]
pub enum Type {
    Head,
    Get,
    Post,
    Put,
    Patch,
    Delete,
}

/// Whether a character may stand in an HTTP header name: a letter, a digit
/// or one of ``!#$%&'*+-.^_`|~``.
pub open spec fn is_tchar(c: char) -> bool {
    let x = c as int;
    ||| 0x61 <= x <= 0x7a
    ||| 0x41 <= x <= 0x5a
    ||| 0x30 <= x <= 0x39
    ||| x == 0x21 || x == 0x23 || x == 0x24 || x == 0x25 || x == 0x26 || x == 0x27
    ||| x == 0x2a || x == 0x2b || x == 0x2d || x == 0x2e
    ||| x == 0x5e || x == 0x5f || x == 0x60 || x == 0x7c || x == 0x7e
}

/// Whether a text is a valid HTTP header name: one to 65535 name
/// characters.
pub open spec fn header_name_ok(k: Seq<char>) -> bool {
    1 <= k.len() <= 65535 && forall|i: int| 0 <= i < k.len() ==> is_tchar(#[trigger] k[i])
}

/// Whether a text is a valid HTTP header value: no control character but
/// the tab.
pub open spec fn header_value_ok(v: Seq<char>) -> bool {
    forall|i: int| 0 <= i < v.len() ==> (#[trigger] v[i] == '\t' || (v[i] as int >= 32 && v[i] as int != 127))
}

/// Whether `HeaderName::from_bytes` of the `http` crate accepts the text's
/// bytes: it accepts exactly the valid header names, and its error is shown
/// as "invalid HTTP header name".
#[verifier::external_body]
fn header_name_from(k: &str) -> (r: Result<(), String>)
    ensures
        r is Ok == header_name_ok(k@),
        r matches Err(e) ==> e@ == "invalid HTTP header name"@,
{
    match HeaderName::from_bytes(k.as_bytes()) {
        Ok(_) => Ok(()),
        Err(e) => Err(e.to_string()),
    }
}

/// Whether `HeaderValue::from_str` of the `http` crate accepts the text: it
/// accepts exactly the texts whose bytes are all at least 32 and not 127,
/// or a tab (every byte of a non-ASCII character is above 127), and its
/// error is shown as "failed to parse header value".
#[verifier::external_body]
fn header_value_from(v: &str) -> (r: Result<(), String>)
    ensures
        r is Ok == header_value_ok(v@),
        r matches Err(e) ==> e@ == "failed to parse header value"@,
{
    match HeaderValue::from_str(v) {
        Ok(_) => Ok(()),
        Err(e) => Err(e.to_string()),
    }
}

/// The first header that is refused, if any: `Some(true)` when its name
/// is invalid, `Some(false)` when its name is valid and its value is not.
pub open spec fn header_failure(hs: Seq<(String, String)>) -> Option<bool>
    decreases hs.len(),
{
    if hs.len() == 0 {
        None
    } else if !header_name_ok(hs[0].0@) {
        Some(true)
    } else if !header_value_ok(hs[0].1@) {
        Some(false)
    } else {
        header_failure(hs.drop_first())
    }
}

/// A webhook call ready to be sent: method, URL, headers (each a valid
/// header name and value) and JSON body. The body is the JSON document
/// itself, sent as it is.
#[derive(Debug)]
pub struct WebhookRequest {
    pub method: Type,
    pub url: String,
    pub headers: Option<Vec<(String, String)>>,
    pub json: Option<String>,
}

/// The views of a list of header pairs.
pub open spec fn pair_views(v: Seq<(String, String)>) -> Seq<(Seq<char>, Seq<char>)> {
    v.map_values(|p: (String, String)| (p.0@, p.1@))
}

/// The views of an optional text.
pub open spec fn opt_view(o: Option<String>) -> Option<Seq<char>> {
    match o {
        Some(s) => Some(s@),
        None => None,
    }
}

/// Whether a header name is `Content-Type`, in any case of its letters.
pub open spec fn is_content_type_name(k: Seq<char>) -> bool {
    k.len() == 12 && forall|i: int| 0 <= i < 12 ==> (#[trigger] k[i] == "content-type"@[i] || k[i] == "CONTENT-TYPE"@[i])
}

/// Whether the headers `hs` name the content type.
pub open spec fn has_content_type(hs: Seq<(String, String)>) -> bool {
    exists|i: int| 0 <= i < hs.len() && is_content_type_name((#[trigger] hs[i]).0@)
}

/// The header a JSON body adds: `Content-Type: application/json`, where
/// there is a body and no configured header names the content type.
pub open spec fn content_type_added(json: Option<String>, hs: Seq<(String, String)>) -> Seq<(Seq<char>, Seq<char>)> {
    if json is Some && !has_content_type(hs) {
        seq![("Content-Type"@, "application/json"@)]
    } else {
        Seq::empty()
    }
}

fn is_content_type(k: &str) -> (b: bool)
    ensures
        b == is_content_type_name(k@),
{
    proof {
        reveal_strlit("content-type");
        reveal_strlit("CONTENT-TYPE");
    }
    let kc = crate::text::chars_of(k);
    let lo = crate::text::chars_of("content-type");
    let up = crate::text::chars_of("CONTENT-TYPE");
    assert(lo@.len() == 12 && up@.len() == 12);
    if kc.len() != 12 {
        return false;
    }
    let mut i: usize = 0;
    while i < 12
        invariant
            i <= 12,
            kc@ == k@,
            kc@.len() == 12,
            lo@ == "content-type"@,
            up@ == "CONTENT-TYPE"@,
            lo@.len() == 12,
            up@.len() == 12,
            forall|m: int| 0 <= m < i ==> (#[trigger] k@[m] == "content-type"@[m] || k@[m] == "CONTENT-TYPE"@[m]),
        decreases 12 - i,
    {
        if kc[i] != lo[i] && kc[i] != up[i] {
            return false;
        }
        i = i + 1;
    }
    true
}

fn names_content_type(hs: &Vec<(String, String)>) -> (b: bool)
    ensures
        b == has_content_type(hs@),
{
    let mut i: usize = 0;
    while i < hs.len()
        invariant
            i <= hs@.len(),
            forall|m: int| 0 <= m < i ==> !is_content_type_name((#[trigger] hs@[m]).0@),
        decreases hs@.len() - i,
    {
        if is_content_type(hs[i].0.as_str()) {
            return true;
        }
        i = i + 1;
    }
    false
}

/// The request a webhook call makes: the method, the URL and the JSON body
/// as given; the headers as given, each of which must be a valid header
/// name and value (the first one refused fails the call with the `http`
/// crate's error), followed, where there is a body and no configured
/// header names the content type, by `Content-Type: application/json`.
pub fn prepare_webhook(url: &str, rtype: &Type, headers: &Option<Vec<(String, String)>>, json: &Option<String>) -> (r: Result<WebhookRequest, Error>)
    ensures
        match headers {
            Some(hs) => match header_failure(hs@) {
                Some(true) => r matches Err(Error::InvalidHeaderName(m)) && m@ == "invalid HTTP header name"@,
                Some(false) => r matches Err(Error::InvalidHeaderValue(m)) && m@ == "failed to parse header value"@,
                None => r matches Ok(req) && req.method == *rtype && req.url@ == url@
                    && opt_view(req.json) == opt_view(*json)
                    && (req.headers matches Some(v)
                        && pair_views(v@) == pair_views(hs@) + content_type_added(*json, hs@)),
            },
            None => r matches Ok(req) && req.method == *rtype && req.url@ == url@
                && opt_view(req.json) == opt_view(*json)
                && match json {
                    None => req.headers is None,
                    Some(_) => req.headers matches Some(v)
                        && pair_views(v@) == content_type_added(*json, Seq::empty()),
                },
        },
{
    let mut out: Vec<(String, String)> = Vec::new();
    let ghost hs0: Seq<(String, String)> = match headers {
        Some(hs) => hs@,
        None => Seq::empty(),
    };
    match headers {
        Some(hs) => {
            let mut i: usize = 0;
            assert(hs@.skip(0) =~= hs@);
            while i < hs.len()
                invariant
                    i <= hs@.len(),
                    pair_views(out@) == pair_views(hs@.take(i as int)),
                    *headers == Some(*hs),
                    header_failure(hs@) == header_failure(hs@.skip(i as int)),
                decreases hs@.len() - i,
            {
                assert(hs@.skip(i as int)[0] == hs@[i as int]);
                assert(hs@.skip(i as int).drop_first() =~= hs@.skip(i + 1));
                match header_name_from(hs[i].0.as_str()) {
                    Ok(()) => {},
                    Err(e) => return Err(Error::InvalidHeaderName(e)),
                }
                match header_value_from(hs[i].1.as_str()) {
                    Ok(()) => {},
                    Err(e) => return Err(Error::InvalidHeaderValue(e)),
                }
                let ghost before = out@;
                let name = hs[i].0.clone();
                let value = hs[i].1.clone();
                assert(name@ == hs@[i as int].0@ && value@ == hs@[i as int].1@);
                out.push((name, value));
                assert(out@ =~= before.push((name, value)));
                assert(hs@.take(i + 1) =~= hs@.take(i as int).push(hs@[i as int]));
                assert(pair_views(out@) =~= pair_views(before).push((name@, value@)));
                assert(pair_views(hs@.take(i + 1)) =~= pair_views(hs@.take(i as int)).push((name@, value@)));
                i = i + 1;
            }
            assert(hs@.skip(hs@.len() as int) =~= Seq::<(String, String)>::empty());
            assert(hs@.take(hs@.len() as int) =~= hs@);
        },
        None => {
            assert(pair_views(out@) =~= Seq::<(Seq<char>, Seq<char>)>::empty());
        },
    }
    assert(pair_views(out@) == pair_views(hs0));
    let named = match headers {
        Some(hs) => names_content_type(hs),
        None => false,
    };
    assert(named == has_content_type(hs0));
    let body = match json {
        Some(j) => {
            if !named {
                let ghost before = out@;
                let ct = (String::from_str("Content-Type"), String::from_str("application/json"));
                out.push(ct);
                assert(out@ =~= before.push(ct));
                assert(pair_views(out@) =~= pair_views(before).push(("Content-Type"@, "application/json"@)));
            }
            Some(j.clone())
        },
        None => None,
    };
    assert(pair_views(out@) =~= pair_views(hs0) + content_type_added(*json, hs0));
    let hdrs = if headers.is_none() && json.is_none() {
        None
    } else {
        Some(out)
    };
    Ok(WebhookRequest { method: *rtype, url: String::from_str(url), headers: hdrs, json: body })
}

/// The index of the first entry named `name`, if any.
pub open spec fn first_name_index<T>(ws: Seq<(String, T)>, name: Seq<char>) -> Option<nat>
    decreases ws.len(),
{
    if ws.len() == 0 {
        None
    } else if ws[0].0@ == name {
        Some(0)
    } else {
        match first_name_index(ws.drop_first(), name) {
            Some(k) => Some(k + 1),
            None => None,
        }
    }
}

proof fn lemma_first_name_index_bound<T>(ws: Seq<(String, T)>, name: Seq<char>)
    ensures
        first_name_index(ws, name) matches Some(k) ==> k < ws.len() && ws[k as int].0@ == name,
    decreases ws.len(),
{
    if ws.len() > 0 && ws[0].0@ != name {
        lemma_first_name_index_bound(ws.drop_first(), name);
    }
}

/// The index of the first entry named `name` in a named list.
pub fn find_name<T>(ws: &Vec<(String, T)>, name: &String) -> (r: Option<usize>)
    ensures
        match first_name_index(ws@, name@) {
            Some(k) => r matches Some(j) && j == k,
            None => r is None,
        },
{
    let mut i: usize = 0;
    assert(ws@.skip(0) =~= ws@);
    while i < ws.len()
        invariant
            i <= ws@.len(),
            first_name_index(ws@, name@) == match first_name_index(ws@.skip(i as int), name@) {
                Some(k) => Some((k + i) as nat),
                None => None::<nat>,
            },
        decreases ws@.len() - i,
    {
        assert(ws@.skip(i as int)[0] == ws@[i as int]);
        assert(ws@.skip(i as int).drop_first() =~= ws@.skip(i + 1));
        if ws[i].0 == *name {
            return Some(i);
        }
        i = i + 1;
    }
    None
}

/// What becomes of one trigger of an updated record.
#[derive(Debug)]
pub enum TriggerStep {
    /// The webhook at `index` of the webhook list is called with the
    /// resolved URL and body.
    Call { index: usize, url: String, json: Option<String> },
    /// The webhook's URL could not be resolved; it is not called.
    UrlFailed { index: usize, error: Error },
    /// The webhook's body could not be resolved; it is not called.
    JsonFailed { index: usize, error: Error },
}

/// Whether `s` is what the webhook `w`, at index `k`, gives when its URL
/// and then its body are resolved with the addresses `g`.
pub open spec fn step_for(s: TriggerStep, k: nat, w: WebHook, g: Gip) -> bool {
    match s {
        TriggerStep::Call { index, url, json } => index == k && resolves_to(w.url@, g, Ok(url))
            && match w.json {
                None => json is None,
                Some(j) => json matches Some(js) && resolves_to(j@, g, Ok(js)),
            },
        TriggerStep::UrlFailed { index, error } => index == k && resolves_to(w.url@, g, Err(error)),
        TriggerStep::JsonFailed { index, error } => index == k
            && (w.json matches Some(j) && resolves_to(j@, g, Err(error))),
    }
}

/// What becomes of a trigger: nothing when no webhook has its name,
/// otherwise the step of the first webhook of that name.
pub open spec fn trigger_outcome(trigger: Seq<char>, webhooks: Option<Vec<(String, WebHook)>>, g: Gip, step: Option<TriggerStep>) -> bool {
    match webhooks {
        None => step is None,
        Some(ws) => match first_name_index(ws@, trigger) {
            None => step is None,
            Some(k) => step matches Some(s) && step_for(s, k, ws@[k as int].1, g),
        },
    }
}

/// The steps of the triggers of an updated record, one for each trigger in
/// order: each names a webhook, whose URL and body are resolved with the
/// current addresses; a webhook whose URL or body cannot be resolved is
/// not called.
pub fn trigger_steps(resolv: &Resolv, webhooks: &Option<Vec<(String, WebHook)>>, gip: &Gip) -> (r: Vec<Option<TriggerStep>>)
    ensures
        match resolv.triggers {
            None => r@.len() == 0,
            Some(tr) => r@.len() == tr@.len() && forall|i: int|
                0 <= i < tr@.len() ==> trigger_outcome(tr@[i]@, *webhooks, *gip, #[trigger] r@[i]),
        },
{
    let mut steps: Vec<Option<TriggerStep>> = Vec::new();
    if let Some(triggers) = &resolv.triggers {
        let mut i: usize = 0;
        while i < triggers.len()
            invariant
                i <= triggers@.len(),
                resolv.triggers == Some(*triggers),
                steps@.len() == i,
                forall|k: int| 0 <= k < i ==> trigger_outcome(triggers@[k]@, *webhooks, *gip, #[trigger] steps@[k]),
            decreases triggers@.len() - i,
        {
            let step = match webhooks {
                None => None,
                Some(ws) => match find_name(ws, &triggers[i]) {
                    None => None,
                    Some(k) => {
                        proof {
                            lemma_first_name_index_bound(ws@, triggers@[i as int]@);
                        }
                        let hook = &ws[k].1;
                        match placeholder_resolve(hook.url.as_str(), gip) {
                            Err(e) => Some(TriggerStep::UrlFailed { index: k, error: e }),
                            Ok(url) => match &hook.json {
                                None => Some(TriggerStep::Call { index: k, url, json: None }),
                                Some(j) => match placeholder_resolve(j.as_str(), gip) {
                                    Err(e) => Some(TriggerStep::JsonFailed { index: k, error: e }),
                                    Ok(js) => Some(TriggerStep::Call { index: k, url, json: Some(js) }),
                                },
                            },
                        }
                    },
                },
            };
            assert(trigger_outcome(triggers@[i as int]@, *webhooks, *gip, step));
            steps.push(step);
            i = i + 1;
        }
    }
    steps
}

} // verus!
