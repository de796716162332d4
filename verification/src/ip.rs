//! The current public addresses and the rules that update them from what
//! an address service answers.
use vstd::prelude::*;
use vstd::string::StringExecFns;

use crate::config::parse::{GetIP, GetIPType};
use crate::text::{split_on, split_string, views};
use crate::types::IPType;

verus! {

/// The addresses last learnt, each in its canonical text form (as std
/// displays `Ipv4Addr` and `Ipv6Addr`). Both start out unspecified.
#[derive(Debug, Clone)]
pub struct Gip {
    pub ipv4: String,
    pub ipv6: String,
}

impl Gip {
    /// The unspecified addresses `0.0.0.0` and `::`.
    pub fn new() -> (g: Gip)
        ensures
            g.ipv4@ == "0.0.0.0"@,
            g.ipv6@ == "::"@,
    {
        Gip { ipv4: String::from_str("0.0.0.0"), ipv6: String::from_str("::") }
    }
}

/// `after` is `before` with the address of kind `iptype` set to `addr`.
pub open spec fn ip_updated(before: Gip, iptype: IPType, addr: Seq<char>, after: Gip) -> bool {
    match iptype {
        IPType::IPV4 => after.ipv4@ == addr && after.ipv6@ == before.ipv6@,
        IPType::IPV6 => after.ipv6@ == addr && after.ipv4@ == before.ipv4@,
    }
}

/// Records a newly learnt address, given in its canonical text form, under
/// its kind; the other address stays as it was.
pub fn update_ip(gip: &mut Gip, iptype: IPType, addr: String)
    ensures
        ip_updated(*old(gip), iptype, addr@, *final(gip)),
{
    match iptype {
        IPType::IPV4 => {
            if gip.ipv4 != addr {
                gip.ipv4 = addr;
            }
        },
        IPType::IPV6 => {
            if gip.ipv6 != addr {
                gip.ipv6 = addr;
            }
        },
    }
}

/// Recording the same address twice leaves the state as recording it once,
/// and recording an address never changes the address of the other kind.
pub proof fn law_update_ip_idempotent(g0: Gip, g1: Gip, g2: Gip, iptype: IPType, addr: Seq<char>)
    requires
        ip_updated(g0, iptype, addr, g1),
        ip_updated(g1, iptype, addr, g2),
    ensures
        g2.ipv4@ == g1.ipv4@,
        g2.ipv6@ == g1.ipv6@,
        iptype is IPV4 ==> g2.ipv6@ == g0.ipv6@,
        iptype is IPV6 ==> g2.ipv4@ == g0.ipv4@,
{
}

/// A JSON document, as the address services answer: numbers are kept as
/// their text, objects as their members in order (each key once).
#[derive(Debug)]
pub enum JsonValue {
    Null,
    Bool(bool),
    Number(String),
    Str(String),
    Array(Vec<JsonValue>),
    Object(Vec<(String, JsonValue)>),
}

/// The value of the first member named `key`, if any.
pub open spec fn object_get(entries: Seq<(String, JsonValue)>, key: Seq<char>) -> Option<JsonValue>
    decreases entries.len(),
{
    if entries.len() == 0 {
        None
    } else if entries[0].0@ == key {
        Some(entries[0].1)
    } else {
        object_get(entries.drop_first(), key)
    }
}

/// The member `key` of an object; nothing for any other value (as
/// `serde_json::Value::get` with a string index).
pub open spec fn json_get(v: JsonValue, key: Seq<char>) -> Option<JsonValue> {
    match v {
        JsonValue::Object(es) => object_get(es@, key),
        _ => None,
    }
}

/// Following the keys `keys` from `v`: the value reached, or the first key
/// that is missing on the way.
pub open spec fn json_path(v: JsonValue, keys: Seq<Seq<char>>) -> Result<JsonValue, Seq<char>>
    decreases keys.len(),
{
    if keys.len() == 0 {
        Ok(v)
    } else {
        match json_get(v, keys[0]) {
            Some(c) => json_path(c, keys.drop_first()),
            None => Err(keys[0]),
        }
    }
}

fn object_lookup<'a>(entries: &'a Vec<(String, JsonValue)>, key: &String) -> (r: Option<&'a JsonValue>)
    ensures
        match object_get(entries@, key@) {
            Some(v) => r matches Some(x) && *x == v,
            None => r is None,
        },
{
    let mut i: usize = 0;
    assert(entries@.skip(0) =~= entries@);
    while i < entries.len()
        invariant
            i <= entries@.len(),
            object_get(entries@, key@) == object_get(entries@.skip(i as int), key@),
        decreases entries@.len() - i,
    {
        assert(entries@.skip(i as int).drop_first() =~= entries@.skip(i + 1));
        assert(entries@.skip(i as int)[0] == entries@[i as int]);
        if entries[i].0 == *key {
            return Some(&entries[i].1);
        }
        i = i + 1;
    }
    None
}

fn json_lookup<'a>(v: &'a JsonValue, key: &String) -> (r: Option<&'a JsonValue>)
    ensures
        match json_get(*v, key@) {
            Some(c) => r matches Some(x) && *x == c,
            None => r is None,
        },
{
    match v {
        JsonValue::Object(es) => object_lookup(es, key),
        _ => None,
    }
}

/// Why the address could not be read from an answer.
#[derive(Debug, Clone, PartialEq, Eq)]
pub enum UpdateIpError {
    /// A key of the path is missing.
    MissingJsonKey(String),
    /// The path leads to a value that is not a string.
    NotString,
}

impl UpdateIpError {
    /// The text this error is shown with.
    pub fn to_text(&self) -> (s: String)
        ensures
            s@ == (match self {
                UpdateIpError::MissingJsonKey(k) => "missing json key: "@ + k@,
                UpdateIpError::NotString => "target value is not string"@,
            }),
    {
        match self {
            UpdateIpError::MissingJsonKey(k) => String::from_str("missing json key: ").concat(k.as_str()),
            UpdateIpError::NotString => String::from_str("target value is not string"),
        }
    }
}

/// What an address service answered.
#[derive(Debug)]
pub enum IpResponse {
    Text(String),
    Json(JsonValue),
}

/// The address text in a JSON answer: the string reached by following the
/// dot-separated keys of `params`.
pub fn json_ip_text(json: &JsonValue, params: &str) -> (r: Result<String, UpdateIpError>)
    ensures
        match json_path(*json, split_on(params@, '.')) {
            Err(k) => r matches Err(UpdateIpError::MissingJsonKey(m)) && m@ == k,
            Ok(JsonValue::Str(s)) => r matches Ok(t) && t@ == s@,
            Ok(_) => r matches Err(UpdateIpError::NotString),
        },
{
    let keys = split_string(params, '.');
    let ghost ks = views(keys@);
    let mut cur: &JsonValue = json;
    let mut i: usize = 0;
    assert(ks.skip(0) =~= ks);
    while i < keys.len()
        invariant
            i <= keys@.len(),
            ks == views(keys@),
            ks == split_on(params@, '.'),
            json_path(*json, ks) == json_path(*cur, ks.skip(i as int)),
        decreases keys@.len() - i,
    {
        assert(ks.skip(i as int)[0] == keys@[i as int]@);
        assert(ks.skip(i as int).drop_first() =~= ks.skip(i + 1));
        match json_lookup(cur, &keys[i]) {
            Some(c) => {
                cur = c;
            },
            None => {
                let k = keys[i].clone();
                return Err(UpdateIpError::MissingJsonKey(k));
            },
        }
        i = i + 1;
    }
    assert(ks.skip(keys@.len() as int) =~= Seq::<Seq<char>>::empty());
    match cur {
        JsonValue::Str(s) => Ok(s.clone()),
        _ => Err(UpdateIpError::NotString),
    }
}

/// The address text in an answer, before trimming: the whole text of a
/// plain answer, or the string at the key path of a JSON answer.
pub fn read_ip_text(getip: &GetIP, body: &IpResponse) -> (r: Result<String, UpdateIpError>)
    requires
        (getip.rtype == GetIPType::Json) == (body is Json),
        getip.rtype == GetIPType::Json ==> getip.params is Some,
    ensures
        match body {
            IpResponse::Text(t) => r matches Ok(s) && s@ == t@,
            IpResponse::Json(j) => match json_path(*j, split_on(getip.params->0@, '.')) {
                Err(k) => r matches Err(UpdateIpError::MissingJsonKey(m)) && m@ == k,
                Ok(JsonValue::Str(s)) => r matches Ok(t) && t@ == s@,
                Ok(_) => r matches Err(UpdateIpError::NotString),
            },
        },
{
    match body {
        IpResponse::Text(t) => Ok(t.clone()),
        IpResponse::Json(j) => {
            match &getip.params {
                Some(p) => json_ip_text(j, p.as_str()),
                None => vstd::pervasive::unreached(),
            }
        },
    }
}

/// A number drawn at random from `0..n` with `rand::random_range` of the
/// `rand` crate, which panics on an empty range. The number lies in the
/// range; nothing more is stated of it, since it rests on chance.
#[verifier::external_body]
fn random_below(n: usize) -> (r: usize)
    requires
        n > 0,
    ensures
        r < n,
{
    rand::random_range(0..n)
}

/// The address service to ask this round: the index of one of `services`,
/// drawn at random.
pub fn pick_service(services: &Vec<GetIP>) -> (i: usize)
    requires
        services@.len() > 0,
    ensures
        i < services@.len(),
{
    random_below(services.len())
}

} // verus!
