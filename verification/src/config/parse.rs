//! The configuration model and its validation rules.
use vstd::prelude::*;
use vstd::string::StringExecFns;

use crate::provider::Provider;
use crate::text::decimal;
use crate::webhook::Type;

verus! {

/// The whole configuration: the address sources and timers, the DNS
/// accounts with their records (by account name), and the webhooks (by
/// name).
#[derive(Debug, Clone)]
pub struct Config {
    pub config: GConfig,
    pub dns: Option<Vec<(String, Dns)>>,
    pub webhook: Option<Vec<(String, WebHook)>>,
}

/// An address service: where to ask, and how to read the answer.
#[derive(Debug, Clone)]
pub struct GetIP {
    pub url: String,
    pub rtype: GetIPType,
    pub params: Option<String>,
}

/// How an address service answers: with the address as plain text, or with
/// a JSON document in which the dotted key path `params` leads to it.
#[derive(Debug, Clone, Copy, PartialEq, Eq, Structural)]
pub enum GetIPType {
    Text,
    Json,
}

/// The address services for each family and the two timers, in seconds:
/// how often the address is checked and how often records are synced.
#[derive(Debug, Clone)]
pub struct GConfig {
    pub ipv4: Vec<GetIP>,
    pub ipv6: Vec<GetIP>,
    pub monitorip: u64,
    pub syncip: u64,
}

/// A DNS account and the records kept up to date in it.
#[derive(Debug, Clone)]
pub struct Dns {
    pub provider: Provider,
    pub records: Vec<Resolv>,
}

/// The type of a DNS record.
#[derive(Debug, Clone, Copy, PartialEq, Eq, Structural)]
pub enum ResolvType {
    A,
    Aaaa,
    Cname,
    Srv,
}

/// The name a record type is written with in DNS.
pub open spec fn resolv_type_text(t: ResolvType) -> Seq<char> {
    match t {
        ResolvType::A => "A"@,
        ResolvType::Aaaa => "AAAA"@,
        ResolvType::Cname => "CNAME"@,
        ResolvType::Srv => "SRV"@,
    }
}

impl ResolvType {
    /// The name this record type is written with in DNS.
    pub fn as_string(&self) -> (s: String)
        ensures
            s@ == resolv_type_text(*self),
    {
        match self {
            ResolvType::A => String::from_str("A"),
            ResolvType::Aaaa => String::from_str("AAAA"),
            ResolvType::Cname => String::from_str("CNAME"),
            ResolvType::Srv => String::from_str("SRV"),
        }
    }
}

/// A record to keep up to date: `hostname.domain` of type `rtype`, whose
/// content is `target` with its placeholders resolved, and the webhooks to
/// call after each update.
#[derive(Debug, Clone)]
pub struct Resolv {
    pub domain: String,
    pub rtype: ResolvType,
    pub hostname: String,
    pub target: String,
    pub triggers: Option<Vec<String>>,
}

/// A webhook: the HTTP method, the URL and the optional headers and JSON
/// body, the last two with placeholders.
#[derive(Debug, Clone)]
pub struct WebHook {
    pub rtype: Type,
    pub url: String,
    pub headers: Option<Vec<(String, String)>>,
    pub json: Option<String>,
}

/// A failed validation rule: its code, an optional message, and the value
/// of the checked field where the rule records it among its parameters
/// (under the key `value`).
#[derive(Debug, Clone, PartialEq, Eq)]
pub struct ValidationError {
    pub code: String,
    pub message: Option<String>,
    pub value: Option<String>,
}

/// The abstract value of a validation failure.
pub struct ValidationErrorView {
    pub code: Seq<char>,
    pub message: Option<Seq<char>>,
    pub value: Option<Seq<char>>,
}

impl View for ValidationError {
    type V = ValidationErrorView;

    open spec fn view(&self) -> ValidationErrorView {
        ValidationErrorView {
            code: self.code@,
            message: match self.message {
                Some(m) => Some(m@),
                None => None,
            },
            value: match self.value {
                Some(v) => Some(v@),
                None => None,
            },
        }
    }
}

/// A field of a webhook that breaks its rule: the webhook's position in
/// the webhook list and its name, the field, and the failure.
#[derive(Debug, Clone, PartialEq, Eq)]
pub struct WebHookIssue {
    pub index: usize,
    pub webhook: String,
    pub field: String,
    pub error: ValidationError,
}

/// The abstract value of a webhook field failure.
pub struct WebHookIssueView {
    pub index: nat,
    pub webhook: Seq<char>,
    pub field: Seq<char>,
    pub error: ValidationErrorView,
}

impl View for WebHookIssue {
    type V = WebHookIssueView;

    open spec fn view(&self) -> WebHookIssueView {
        WebHookIssueView { index: self.index as nat, webhook: self.webhook@, field: self.field@, error: self.error@ }
    }
}

/// Why a configuration is refused.
#[derive(Debug, Clone, PartialEq, Eq)]
pub enum ConfigError {
    /// Webhook fields that break their rules, all of them, in order.
    Invalid(Vec<WebHookIssue>),
    /// The address check interval is longer than the sync interval.
    MonitorIp,
    /// A record names a webhook that does not exist.
    Trigger(ValidationError),
}

/// What `Url::parse` of the `url` crate reports for a text: nothing when
/// it parses, else the text of its error.
pub uninterp spec fn url_parse_error(s: Seq<char>) -> Option<Seq<char>>;

/// What `serde_json::from_str::<serde_json::Value>` reports for a text:
/// nothing when it is a JSON document, else the text of its error.
pub uninterp spec fn json_parse_error(s: Seq<char>) -> Option<Seq<char>>;

/// Parses a URL with `url::Url::parse`; on failure, the error's text. Both
/// are tied to the name `url_parse_error`; what the URL grammar accepts is
/// not restated here.
#[verifier::external_body]
fn url_parse(s: &str) -> (r: Result<(), String>)
    ensures
        match r {
            Ok(()) => url_parse_error(s@) is None,
            Err(e) => url_parse_error(s@) == Some(e@),
        },
{
    match url::Url::parse(s) {
        Ok(_) => Ok(()),
        Err(e) => Err(e.to_string()),
    }
}

/// The `url` rule of the `validator` crate (`ValidateUrl::validate_url`),
/// which holds exactly when `url::Url::parse` accepts the text.
#[verifier::external_body]
fn validate_url(s: &String) -> (b: bool)
    ensures
        b == (url_parse_error(s@) is None),
{
    validator::ValidateUrl::validate_url(s)
}

/// Parses a text as a JSON document with
/// `serde_json::from_str::<serde_json::Value>`; on failure, the error's
/// text. Both are tied to the name `json_parse_error`.
#[verifier::external_body]
fn json_value_parse(s: &str) -> (r: Result<(), String>)
    ensures
        match r {
            Ok(()) => json_parse_error(s@) is None,
            Err(e) => json_parse_error(s@) == Some(e@),
        },
{
    match serde_json::from_str::<serde_json::Value>(s) {
        Ok(_) => Ok(()),
        Err(e) => Err(e.to_string()),
    }
}

fn validation_error(code: &str, message: Option<String>) -> (e: ValidationError)
    ensures
        e.code@ == code@,
        e.message == message,
        e.value is None,
{
    ValidationError { code: String::from_str(code), message, value: None }
}

/// The failure a text gets for not being a JSON document, if it is not.
pub open spec fn json_rule(content: Seq<char>) -> Option<ValidationErrorView> {
    match json_parse_error(content) {
        None => None,
        Some(e) => Some(ValidationErrorView {
            code: "invalid_json"@,
            message: Some("field "@ + content + " is not a json: "@ + e),
            value: None,
        }),
    }
}

/// Checks that a text is a JSON document.
pub fn validate_is_value(content: &String) -> (r: Result<(), ValidationError>)
    ensures
        match json_rule(content@) {
            None => r is Ok,
            Some(e) => r matches Err(err) && err@ == e,
        },
{
    match json_value_parse(content.as_str()) {
        Ok(()) => Ok(()),
        Err(e) => {
            let mut m = String::from_str("field ");
            m.append(content.as_str());
            m.append(" is not a json: ");
            m.append(e.as_str());
            Err(validation_error("invalid_json", Some(m)))
        },
    }
}

/// Whether `name` is one of the names of `ws`.
pub open spec fn has_name<T>(ws: Seq<(String, T)>, name: Seq<char>) -> bool {
    exists|i: int| 0 <= i < ws.len() && (#[trigger] ws[i]).0@ == name
}

/// The index of the first trigger that names no webhook, if any.
pub open spec fn missing_trigger<T>(triggers: Seq<String>, ws: Seq<(String, T)>) -> Option<int> {
    if exists|i: int| 0 <= i < triggers.len() && !has_name(ws, (#[trigger] triggers[i])@) {
        Some(choose|i: int|
            0 <= i < triggers.len() && !has_name(ws, (#[trigger] triggers[i])@)
                && forall|k: int| 0 <= k < i ==> has_name(ws, (#[trigger] triggers[k])@))
    } else {
        None
    }
}

/// The failure a list of triggers gets for naming a webhook that does not
/// exist: the first such trigger.
pub open spec fn trigger_rule<T>(triggers: Seq<String>, ws: Seq<(String, T)>) -> Option<ValidationErrorView> {
    match missing_trigger(triggers, ws) {
        None => None,
        Some(i) => Some(ValidationErrorView {
            code: "invalid_tigger"@,
            message: Some("This trigger does not exist: "@ + triggers[i]@),
            value: None,
        }),
    }
}

/// Whether the webhook list `ws` has an entry named `name`.
pub fn contains_name<T>(ws: &Vec<(String, T)>, name: &String) -> (b: bool)
    ensures
        b == has_name(ws@, name@),
{
    let mut i: usize = 0;
    while i < ws.len()
        invariant
            i <= ws.len(),
            forall|k: int| 0 <= k < i ==> (#[trigger] ws@[k]).0@ != name@,
        decreases ws.len() - i,
    {
        if ws[i].0 == *name {
            return true;
        }
        i = i + 1;
    }
    false
}

/// Checks that every trigger names a webhook of `context`.
pub fn validate_triggers<T>(triggers: &Vec<String>, context: &Vec<(String, T)>) -> (r: Result<(), ValidationError>)
    ensures
        match trigger_rule(triggers@, context@) {
            None => r is Ok,
            Some(e) => r matches Err(err) && err@ == e,
        },
{
    let mut i: usize = 0;
    while i < triggers.len()
        invariant
            i <= triggers.len(),
            forall|k: int| 0 <= k < i ==> has_name(context@, (#[trigger] triggers@[k])@),
        decreases triggers.len() - i,
    {
        if !contains_name(context, &triggers[i]) {
            proof {
                let j = i as int;
                assert(0 <= j < triggers@.len() && !has_name(context@, triggers@[j]@)
                    && forall|k: int| 0 <= k < j ==> has_name(context@, (#[trigger] triggers@[k])@));
                let c = choose|c: int|
                    0 <= c < triggers@.len() && !has_name(context@, (#[trigger] triggers@[c])@)
                        && forall|k: int| 0 <= k < c ==> has_name(context@, (#[trigger] triggers@[k])@);
                assert(forall|k: int| 0 <= k < j ==> has_name(context@, (#[trigger] triggers@[k])@));
                if c < j {
                } else if c > j {
                    assert(has_name(context@, triggers@[j]@));
                }
                assert(c == j);
            }
            let mut m = String::from_str("This trigger does not exist: ");
            m.append(triggers[i].as_str());
            return Err(validation_error("invalid_tigger", Some(m)));
        }
        i = i + 1;
    }
    Ok(())
}

/// The failure an address service gets under its own rule: a JSON service
/// needs a non-empty key path.
pub open spec fn getip_rule(g: GetIP) -> Option<ValidationErrorView> {
    if g.rtype == GetIPType::Json {
        match g.params {
            Some(p) => if p@.len() == 0 {
                Some(ValidationErrorView { code: "parsms is_empty"@, message: None, value: None })
            } else {
                None
            },
            None => Some(ValidationErrorView { code: "parsms is none"@, message: None, value: None }),
        }
    } else {
        None
    }
}

/// Checks that a JSON address service has a non-empty key path.
pub fn validate_getip(getip: &GetIP) -> (r: Result<(), ValidationError>)
    ensures
        match getip_rule(*getip) {
            None => r is Ok,
            Some(e) => r matches Err(err) && err@ == e,
        },
{
    if getip.rtype == GetIPType::Json {
        match &getip.params {
            Some(params) => {
                if params.as_str().is_empty() {
                    return Err(validation_error("parsms is_empty", None));
                }
            },
            None => {
                return Err(validation_error("parsms is none", None));
            },
        }
    }
    Ok(())
}

/// The index of the first text that `url::Url::parse` refuses, if any.
pub open spec fn first_bad_url(urls: Seq<String>) -> Option<int> {
    if exists|i: int| 0 <= i < urls.len() && (#[trigger] url_parse_error(urls[i]@)) is Some {
        Some(choose|i: int|
            0 <= i < urls.len() && (#[trigger] url_parse_error(urls[i]@)) is Some
                && forall|k: int| 0 <= k < i ==> (#[trigger] url_parse_error(urls[k]@)) is None)
    } else {
        None
    }
}

/// The failure a list of URLs gets for holding one that does not parse:
/// the first such URL, by its index and the parser's message.
pub open spec fn urls_rule(urls: Seq<String>) -> Option<ValidationErrorView> {
    match first_bad_url(urls) {
        None => None,
        Some(i) => Some(ValidationErrorView {
            code: "invalid_url"@,
            message: Some("item "@ + decimal(i as nat) + " is not a valid URL: "@ + url_parse_error(urls[i]@)->0),
            value: None,
        }),
    }
}

/// Checks that every text of `urls` parses as a URL.
pub fn validate_urls(urls: &[String]) -> (r: Result<(), ValidationError>)
    ensures
        match urls_rule(urls@) {
            None => r is Ok,
            Some(e) => r matches Err(err) && err@ == e,
        },
{
    let mut i: usize = 0;
    while i < urls.len()
        invariant
            i <= urls@.len(),
            forall|k: int| 0 <= k < i ==> (#[trigger] url_parse_error(urls@[k]@)) is None,
        decreases urls@.len() - i,
    {
        match url_parse(urls[i].as_str()) {
            Ok(()) => {},
            Err(e) => {
                proof {
                    let j = i as int;
                    assert(0 <= j < urls@.len() && url_parse_error(urls@[j]@) is Some
                        && forall|k: int| 0 <= k < j ==> (#[trigger] url_parse_error(urls@[k]@)) is None);
                    let c = choose|c: int|
                        0 <= c < urls@.len() && (#[trigger] url_parse_error(urls@[c]@)) is Some
                            && forall|k: int| 0 <= k < c ==> (#[trigger] url_parse_error(urls@[k]@)) is None;
                    if c > j {
                        assert(url_parse_error(urls@[j]@) is None);
                    }
                    assert(c == j);
                }
                let mut m = String::from_str("item ");
                crate::text::push_decimal(&mut m, i as u64);
                m.append(" is not a valid URL: ");
                m.append(e.as_str());
                return Err(validation_error("invalid_url", Some(m)));
            },
        }
        i = i + 1;
    }
    Ok(())
}

/// The abstract value of a configuration failure.
pub enum ConfigErrorView {
    Invalid(Seq<WebHookIssueView>),
    MonitorIp,
    Trigger(ValidationErrorView),
}

impl View for ConfigError {
    type V = ConfigErrorView;

    open spec fn view(&self) -> ConfigErrorView {
        match self {
            ConfigError::Invalid(v) => ConfigErrorView::Invalid(issue_views(v@)),
            ConfigError::MonitorIp => ConfigErrorView::MonitorIp,
            ConfigError::Trigger(e) => ConfigErrorView::Trigger(e@),
        }
    }
}

/// What std's `Debug` shows a string as (quoted, with escapes).
pub uninterp spec fn str_debug(s: Seq<char>) -> Seq<char>;

/// A string as std's `Debug` for `str` shows it; tied to the name
/// `str_debug`, which depends on the text alone.
#[verifier::external_body]
fn debug_text(s: &str) -> (r: String)
    ensures
        r@ == str_debug(s@),
{
    format!("{:?}", s)
}

/// The parameters of a failed rule as they are debug-printed: nothing, or
/// the field's value as a JSON string under the key `value`.
pub open spec fn params_text(value: Option<Seq<char>>) -> Seq<char> {
    match value {
        None => "{}"@,
        Some(v) => "{\"value\": String("@ + str_debug(v) + ")}"@,
    }
}

/// The text a failed rule is shown with: its message, or its code and
/// parameters.
pub open spec fn validation_text(e: ValidationErrorView) -> Seq<char> {
    match e.message {
        Some(m) => m,
        None => "Validation error: "@ + e.code + " ["@ + params_text(e.value) + "]"@,
    }
}

/// The text a broken webhook field is shown with: the path of the field,
/// the webhook by its position in the list, and the failure.
pub open spec fn issue_text(i: WebHookIssueView) -> Seq<char> {
    "webhook["@ + decimal(i.index) + "]."@ + i.field + ": "@ + validation_text(i.error)
}

/// The texts `xs`, one after the other.
pub open spec fn concat_texts(xs: Seq<Seq<char>>) -> Seq<char>
    decreases xs.len(),
{
    if xs.len() == 0 {
        Seq::empty()
    } else {
        concat_texts(xs.drop_last()) + xs.last()
    }
}

/// The text a refused configuration is shown with.
pub open spec fn config_error_text(e: ConfigErrorView) -> Seq<char> {
    match e {
        ConfigErrorView::Invalid(is) => concat_texts(is.map_values(|i: WebHookIssueView| issue_text(i))),
        ConfigErrorView::MonitorIp => "monitorip must be less than syncip"@,
        ConfigErrorView::Trigger(v) => "triggers: "@ + validation_text(v),
    }
}

impl ValidationError {
    /// The text this failure is shown with: its message, or its code and
    /// parameters.
    pub fn to_text(&self) -> (s: String)
        ensures
            s@ == validation_text(self@),
    {
        match &self.message {
            Some(m) => m.clone(),
            None => {
                let mut s = String::from_str("Validation error: ");
                s.append(self.code.as_str());
                s.append(" [");
                match &self.value {
                    None => {
                        s.append("{}");
                    },
                    Some(v) => {
                        s.append("{\"value\": String(");
                        let d = debug_text(v.as_str());
                        s.append(d.as_str());
                        s.append(")}");
                    },
                }
                s.append("]");
                s
            },
        }
    }
}

impl WebHookIssue {
    /// The line this broken field is shown with.
    pub fn to_text(&self) -> (s: String)
        ensures
            s@ == issue_text(self@),
    {
        let mut s = String::from_str("webhook[");
        crate::text::push_decimal(&mut s, self.index as u64);
        s.append("].");
        s.append(self.field.as_str());
        s.append(": ");
        let e = self.error.to_text();
        s.append(e.as_str());
        s
    }
}

impl ConfigError {
    /// The text this refusal is shown with: the texts of the broken
    /// webhook fields one after the other, or the rule that failed.
    pub fn to_text(&self) -> (s: String)
        ensures
            s@ == config_error_text(self@),
    {
        match self {
            ConfigError::Invalid(issues) => {
                let ghost xs = issue_views(issues@).map_values(|i: WebHookIssueView| issue_text(i));
                let mut s = String::new();
                let mut i: usize = 0;
                assert(xs.take(0) =~= Seq::<Seq<char>>::empty());
                while i < issues.len()
                    invariant
                        i <= issues@.len(),
                        xs == issue_views(issues@).map_values(|i: WebHookIssueView| issue_text(i)),
                        xs.len() == issues@.len(),
                        s@ == concat_texts(xs.take(i as int)),
                    decreases issues@.len() - i,
                {
                    let ghost ys = xs.take(i + 1);
                    assert(ys.drop_last() =~= xs.take(i as int));
                    assert(ys.last() == issue_text(issues@[i as int]@));
                    let line = issues[i].to_text();
                    s.append(line.as_str());
                    assert(s@ =~= concat_texts(ys));
                    i = i + 1;
                }
                assert(xs.take(issues@.len() as int) =~= xs);
                s
            },
            ConfigError::MonitorIp => String::from_str("monitorip must be less than syncip"),
            ConfigError::Trigger(e) => {
                let t = e.to_text();
                String::from_str("triggers: ").concat(t.as_str())
            },
        }
    }
}

/// The views of a sequence of webhook issues.
pub open spec fn issue_views(v: Seq<WebHookIssue>) -> Seq<WebHookIssueView> {
    v.map_values(|x: WebHookIssue| x@)
}

/// The fields of one webhook, at `index` of the list, that break their
/// rules: the URL must parse (a failure records the URL as its value), and
/// the JSON body, where there is one, must be a JSON document.
pub open spec fn hook_issues(index: nat, name: Seq<char>, w: WebHook) -> Seq<WebHookIssueView> {
    (if url_parse_error(w.url@) is None {
        Seq::empty()
    } else {
        seq![WebHookIssueView {
            index,
            webhook: name,
            field: "url"@,
            error: ValidationErrorView { code: "url"@, message: None, value: Some(w.url@) },
        }]
    }) + match w.json {
        Some(j) => match json_rule(j@) {
            Some(e) => seq![WebHookIssueView { index, webhook: name, field: "json"@, error: e }],
            None => Seq::empty(),
        },
        None => Seq::empty(),
    }
}

/// The broken fields of all webhooks, in order.
pub open spec fn webhook_issues(ws: Seq<(String, WebHook)>) -> Seq<WebHookIssueView>
    decreases ws.len(),
{
    if ws.len() == 0 {
        Seq::empty()
    } else {
        webhook_issues(ws.drop_last()) + hook_issues((ws.len() - 1) as nat, ws.last().0@, ws.last().1)
    }
}

/// All records of all accounts, account by account.
pub open spec fn all_records(d: Seq<(String, Dns)>) -> Seq<Resolv>
    decreases d.len(),
{
    if d.len() == 0 {
        Seq::empty()
    } else {
        all_records(d.drop_last()) + d.last().1.records@
    }
}

/// The trigger failure of the first record whose triggers name a webhook
/// that does not exist, if any.
pub open spec fn first_trigger_error(rs: Seq<Resolv>, ws: Seq<(String, WebHook)>) -> Option<ValidationErrorView>
    decreases rs.len(),
{
    if rs.len() == 0 {
        None
    } else {
        match rs[0].triggers {
            Some(tr) => match trigger_rule(tr@, ws) {
                Some(e) => Some(e),
                None => first_trigger_error(rs.drop_first(), ws),
            },
            None => first_trigger_error(rs.drop_first(), ws),
        }
    }
}

/// What checking a configuration gives: first the webhooks' field rules
/// (all broken fields are reported together), then the rule that the
/// address is checked at least as often as records are synced, then,
/// where webhooks are configured, that every record trigger names one.
pub open spec fn check_result(c: Config) -> Result<(), ConfigErrorView> {
    let issues = match c.webhook {
        Some(ws) => webhook_issues(ws@),
        None => Seq::empty(),
    };
    if issues.len() > 0 {
        Err(ConfigErrorView::Invalid(issues))
    } else if c.config.monitorip > c.config.syncip {
        Err(ConfigErrorView::MonitorIp)
    } else {
        match (c.webhook, c.dns) {
            (Some(ws), Some(d)) => match first_trigger_error(all_records(d@), ws@) {
                Some(e) => Err(ConfigErrorView::Trigger(e)),
                None => Ok(()),
            },
            _ => Ok(()),
        }
    }
}

proof fn lemma_first_trigger_error_concat(a: Seq<Resolv>, b: Seq<Resolv>, ws: Seq<(String, WebHook)>)
    ensures
        first_trigger_error(a + b, ws) == match first_trigger_error(a, ws) {
            Some(e) => Some(e),
            None => first_trigger_error(b, ws),
        },
    decreases a.len(),
{
    if a.len() == 0 {
        assert(a + b =~= b);
    } else {
        assert((a + b).drop_first() =~= a.drop_first() + b);
        assert((a + b)[0] == a[0]);
        lemma_first_trigger_error_concat(a.drop_first(), b, ws);
    }
}

proof fn lemma_first_trigger_error_one(r: Resolv, ws: Seq<(String, WebHook)>)
    ensures
        first_trigger_error(seq![r], ws) == match r.triggers {
            Some(tr) => trigger_rule(tr@, ws),
            None => None,
        },
{
    assert(seq![r].drop_first() =~= Seq::<Resolv>::empty());
    assert(first_trigger_error(Seq::<Resolv>::empty(), ws) is None);
    assert(seq![r][0] == r);
}

proof fn lemma_all_records_concat(a: Seq<(String, Dns)>, b: Seq<(String, Dns)>)
    ensures
        all_records(a + b) == all_records(a) + all_records(b),
    decreases b.len(),
{
    if b.len() == 0 {
        assert(a + b =~= a);
        assert(all_records(a) + Seq::<Resolv>::empty() =~= all_records(a));
    } else {
        lemma_all_records_concat(a, b.drop_last());
        assert((a + b).drop_last() =~= a + b.drop_last());
        assert((a + b).last() == b.last());
        assert(all_records(a) + all_records(b) =~= all_records(a) + all_records(b.drop_last()) + b.last().1.records@);
    }
}

proof fn lemma_all_records_split(d: Seq<(String, Dns)>, i: int)
    requires
        0 <= i < d.len(),
    ensures
        all_records(d) == all_records(d.take(i)) + d[i].1.records@ + all_records(d.skip(i + 1)),
{
    assert(d =~= d.take(i) + seq![d[i]] + d.skip(i + 1));
    lemma_all_records_concat(d.take(i) + seq![d[i]], d.skip(i + 1));
    lemma_all_records_concat(d.take(i), seq![d[i]]);
    assert(seq![d[i]].drop_last() =~= Seq::<(String, Dns)>::empty());
    assert(seq![d[i]].last() == d[i]);
    assert(all_records(Seq::<(String, Dns)>::empty()) == Seq::<Resolv>::empty());
    assert(all_records(seq![d[i]]) =~= d[i].1.records@);
}

fn collect_webhook_issues(ws: &Vec<(String, WebHook)>) -> (v: Vec<WebHookIssue>)
    ensures
        issue_views(v@) == webhook_issues(ws@),
{
    let mut v: Vec<WebHookIssue> = Vec::new();
    let mut i: usize = 0;
    assert(ws@.take(0) =~= Seq::<(String, WebHook)>::empty());
    while i < ws.len()
        invariant
            i <= ws@.len(),
            issue_views(v@) == webhook_issues(ws@.take(i as int)),
        decreases ws@.len() - i,
    {
        let ghost before = issue_views(v@);
        assert(ws@.take(i + 1).drop_last() =~= ws@.take(i as int));
        assert(ws@.take(i + 1).last() == ws@[i as int]);
        let name = &ws[i].0;
        let hook = &ws[i].1;
        if !validate_url(&hook.url) {
            let e = ValidationError { code: String::from_str("url"), message: None, value: Some(hook.url.clone()) };
            v.push(WebHookIssue { index: i, webhook: name.clone(), field: String::from_str("url"), error: e });
        }
        let ghost mid = issue_views(v@);
        match &hook.json {
            Some(j) => {
                match validate_is_value(j) {
                    Ok(()) => {},
                    Err(e) => {
                        v.push(WebHookIssue { index: i, webhook: name.clone(), field: String::from_str("json"), error: e });
                    },
                }
            },
            None => {},
        }
        assert(issue_views(v@) =~= before + hook_issues(i as nat, name@, *hook));
        i = i + 1;
    }
    assert(ws@.take(ws@.len() as int) =~= ws@);
    v
}

/// Checks a configuration: every webhook's URL parses and its JSON body,
/// if any, is a JSON document (all failures are reported together); the
/// address check interval is not longer than the sync interval; and, where
/// webhooks are configured, every trigger of every record names one.
pub fn check(config: &Config) -> (r: Result<(), ConfigError>)
    ensures
        match check_result(*config) {
            Ok(()) => r is Ok,
            Err(e) => r matches Err(err) && err@ == e,
        },
        r is Ok ==> (config.webhook matches Some(ws) ==> forall|i: int|
            0 <= i < ws@.len() ==> hook_well_formed(#[trigger] ws@[i].1)),
        r is Ok ==> config.config.monitorip <= config.config.syncip,
{
    proof {
        law_webhook_fields_decide_acceptance(*config);
    }
    match &config.webhook {
        Some(ws) => {
            let issues = collect_webhook_issues(ws);
            if issues.len() > 0 {
                return Err(ConfigError::Invalid(issues));
            }
        },
        None => {},
    }
    if config.config.monitorip > config.config.syncip {
        return Err(ConfigError::MonitorIp);
    }
    if let Some(dnss) = &config.dns {
        if let Some(webhooks) = &config.webhook {
            let mut i: usize = 0;
            assert(dnss@.take(0) =~= Seq::<(String, Dns)>::empty());
            let ghost outcome = match first_trigger_error(all_records(dnss@), webhooks@) {
                Some(e) => Err(ConfigErrorView::Trigger(e)),
                None => Ok(()),
            };
            assert(check_result(*config) == outcome);
            while i < dnss.len()
                invariant
                    i <= dnss@.len(),
                    check_result(*config) == outcome,
                    outcome == match first_trigger_error(all_records(dnss@), webhooks@) {
                        Some(e) => Err(ConfigErrorView::Trigger(e)),
                        None => Ok::<(), ConfigErrorView>(()),
                    },
                    first_trigger_error(all_records(dnss@.take(i as int)), webhooks@) is None,
                decreases dnss@.len() - i,
            {
                let records = &dnss[i].1.records;
                let ghost done = all_records(dnss@.take(i as int));
                let mut j: usize = 0;
                assert(records@.take(0) =~= Seq::<Resolv>::empty());
                assert(done + records@.take(0) =~= done);
                while j < records.len()
                    invariant
                        j <= records@.len(),
                        i < dnss@.len(),
                        records@ == dnss@[i as int].1.records@,
                        done == all_records(dnss@.take(i as int)),
                        check_result(*config) == outcome,
                        outcome == match first_trigger_error(all_records(dnss@), webhooks@) {
                            Some(e) => Err(ConfigErrorView::Trigger(e)),
                            None => Ok::<(), ConfigErrorView>(()),
                        },
                        first_trigger_error(done + records@.take(j as int), webhooks@) is None,
                    decreases records@.len() - j,
                {
                    let resolv = &records[j];
                    proof {
                        assert(records@.take(j + 1) =~= records@.take(j as int) + seq![*resolv]);
                        assert(done + records@.take(j + 1) =~= (done + records@.take(j as int)) + seq![*resolv]);
                        lemma_first_trigger_error_concat(done + records@.take(j as int), seq![*resolv], webhooks@);
                        lemma_first_trigger_error_one(*resolv, webhooks@);
                    }
                    if let Some(triggers) = &resolv.triggers {
                        match validate_triggers(triggers, webhooks) {
                            Ok(()) => {},
                            Err(e) => {
                                proof {
                                    let tail = records@.skip(j + 1) + all_records(dnss@.skip(i + 1));
                                    lemma_all_records_split(dnss@, i as int);
                                    assert(records@ =~= records@.take(j + 1) + records@.skip(j + 1));
                                    assert(all_records(dnss@) =~= (done + records@.take(j + 1)) + tail);
                                    lemma_first_trigger_error_concat(done + records@.take(j + 1), tail, webhooks@);
                                }
                                return Err(ConfigError::Trigger(e));
                            },
                        }
                    }
                    j = j + 1;
                }
                proof {
                    assert(records@.take(records@.len() as int) =~= records@);
                    assert(dnss@.take(i + 1).drop_last() =~= dnss@.take(i as int));
                    assert(dnss@.take(i + 1).last() == dnss@[i as int]);
                }
                i = i + 1;
            }
            assert(dnss@.take(dnss@.len() as int) =~= dnss@);
        }
    }
    Ok(())
}

proof fn lemma_no_trigger_error(rs: Seq<Resolv>, ws: Seq<(String, WebHook)>, i: int)
    requires
        first_trigger_error(rs, ws) is None,
        0 <= i < rs.len(),
    ensures
        rs[i].triggers matches Some(tr) ==> trigger_rule(tr@, ws) is None,
    decreases rs.len(),
{
    if i > 0 {
        lemma_no_trigger_error(rs.drop_first(), ws, i - 1);
        assert(rs.drop_first()[i - 1] == rs[i]);
    }
}

/// Whether every trigger of a record names a webhook of `ws`.
pub open spec fn triggers_resolve(r: Resolv, ws: Seq<(String, WebHook)>) -> bool {
    match r.triggers {
        Some(tr) => forall|k: int| 0 <= k < tr@.len() ==> has_name(ws, (#[trigger] tr@[k])@),
        None => true,
    }
}

/// A configuration that passes its check checks the address at least as
/// often as it syncs records, and, where webhooks are configured, every
/// trigger of every record names one of them.
pub proof fn law_accepted_config_is_consistent(c: Config)
    requires
        check_result(c) is Ok,
    ensures
        c.config.monitorip <= c.config.syncip,
        c.webhook matches Some(ws) ==> (c.dns matches Some(d) ==> forall|i: int|
            0 <= i < all_records(d@).len() ==> triggers_resolve(#[trigger] all_records(d@)[i], ws@)),
{
    if let Some(ws) = c.webhook {
        if let Some(d) = c.dns {
            assert forall|i: int| 0 <= i < all_records(d@).len() implies triggers_resolve(
                #[trigger] all_records(d@)[i], ws@) by {
                lemma_no_trigger_error(all_records(d@), ws@, i);
                if let Some(tr) = all_records(d@)[i].triggers {
                    assert forall|k: int| 0 <= k < tr@.len() implies has_name(ws@, (#[trigger] tr@[k])@) by {
                        if !has_name(ws@, tr@[k]@) {
                            lemma_missing_trigger_exists(tr@, ws@, k);
                        }
                    }
                }
            }
        }
    }
}

proof fn lemma_missing_trigger_exists<T>(triggers: Seq<String>, ws: Seq<(String, T)>, k: int)
    requires
        0 <= k < triggers.len(),
        !has_name(ws, triggers[k]@),
    ensures
        trigger_rule(triggers, ws) is Some,
    decreases k,
{
    if forall|j: int| 0 <= j < k ==> has_name(ws, (#[trigger] triggers[j])@) {
        assert(0 <= k < triggers.len() && !has_name(ws, triggers[k]@)
            && forall|j: int| 0 <= j < k ==> has_name(ws, (#[trigger] triggers[j])@));
    } else {
        let j = choose|j: int| 0 <= j < k && !has_name(ws, (#[trigger] triggers[j])@);
        lemma_missing_trigger_exists(triggers, ws, j);
    }
}

/// The records to update on each sync, as (account index, record index)
/// pairs: account by account, record by record.
pub open spec fn record_jobs(d: Seq<(String, Dns)>) -> Seq<(int, int)>
    decreases d.len(),
{
    if d.len() == 0 {
        Seq::empty()
    } else {
        record_jobs(d.drop_last()) + Seq::new(d.last().1.records@.len(), |j: int| ((d.len() - 1) as int, j))
    }
}

/// The records a sync updates, in order: every record of every account.
pub fn update_record_jobs(config: &Config) -> (r: Vec<(usize, usize)>)
    ensures
        match config.dns {
            None => r@.len() == 0,
            Some(d) => r@.len() == record_jobs(d@).len() && forall|k: int| 0 <= k < r@.len()
                ==> (#[trigger] r@[k]).0 as int == record_jobs(d@)[k].0 && r@[k].1 as int == record_jobs(d@)[k].1,
        },
        config.dns matches Some(d) ==> r@.len() == all_records(d@).len(),
        config.dns matches Some(d) ==> forall|i: int, j: int| names_record(d@, (i, j)) ==> exists|k: int|
            0 <= k < r@.len() && (#[trigger] r@[k]).0 as int == i && r@[k].1 as int == j,
{
    let mut out: Vec<(usize, usize)> = Vec::new();
    if let Some(dnss) = &config.dns {
        let mut i: usize = 0;
        assert(dnss@.take(0) =~= Seq::<(String, Dns)>::empty());
        while i < dnss.len()
            invariant
                i <= dnss@.len(),
                config.dns == Some(*dnss),
                out@.len() == record_jobs(dnss@.take(i as int)).len(),
                forall|k: int| 0 <= k < out@.len() ==> (#[trigger] out@[k]).0 as int == record_jobs(dnss@.take(i as int))[k].0
                    && out@[k].1 as int == record_jobs(dnss@.take(i as int))[k].1,
            decreases dnss@.len() - i,
        {
            let ghost prev = record_jobs(dnss@.take(i as int));
            assert(dnss@.take(i + 1).drop_last() =~= dnss@.take(i as int));
            assert(dnss@.take(i + 1).last() == dnss@[i as int]);
            let ghost next = record_jobs(dnss@.take(i + 1));
            let n = dnss[i].1.records.len();
            let ghost base = out@.len();
            let mut j: usize = 0;
            while j < n
                invariant
                    j <= n,
                    n == dnss@[i as int].1.records@.len(),
                    i < dnss@.len(),
                    base == prev.len(),
                    next == prev + Seq::new(n as nat, |q: int| (i as int, q)),
                    out@.len() == base + j,
                    forall|k: int| 0 <= k < base ==> (#[trigger] out@[k]).0 as int == prev[k].0 && out@[k].1 as int == prev[k].1,
                    forall|k: int| base <= k < out@.len() ==> (#[trigger] out@[k]).0 == i && out@[k].1 as int == k - base,
                decreases n - j,
            {
                out.push((i, j));
                j = j + 1;
            }
            assert forall|k: int| 0 <= k < out@.len() implies (#[trigger] out@[k]).0 as int == next[k].0
                && out@[k].1 as int == next[k].1 by {
                if k >= base {
                    assert(next[k] == (i as int, k - base));
                }
            }
            i = i + 1;
        }
        assert(dnss@.take(dnss@.len() as int) =~= dnss@);
        proof {
            law_sync_jobs_cover_every_record(dnss@);
            assert forall|i: int, j: int| names_record(dnss@, (i, j)) implies exists|k: int|
                0 <= k < out@.len() && (#[trigger] out@[k]).0 as int == i && out@[k].1 as int == j by {
                let k = choose|k: int| 0 <= k < record_jobs(dnss@).len() && #[trigger] record_jobs(dnss@)[k] == (i, j);
                assert(out@[k].0 as int == record_jobs(dnss@)[k].0);
            }
        }
    }
    out
}

/// Whether a webhook's fields keep their rules: its URL parses, and its
/// JSON body, where there is one, is a JSON document.
pub open spec fn hook_well_formed(w: WebHook) -> bool {
    &&& url_parse_error(w.url@) is None
    &&& (w.json matches Some(j) ==> json_parse_error(j@) is None)
}

proof fn lemma_webhook_issues_empty(ws: Seq<(String, WebHook)>)
    ensures
        (webhook_issues(ws).len() == 0) == (forall|i: int| 0 <= i < ws.len() ==> hook_well_formed(#[trigger] ws[i].1)),
    decreases ws.len(),
{
    if ws.len() > 0 {
        let init = ws.drop_last();
        lemma_webhook_issues_empty(init);
        let h = hook_issues((ws.len() - 1) as nat, ws.last().0@, ws.last().1);
        assert((h.len() == 0) == hook_well_formed(ws.last().1));
        assert(ws.last() == ws[ws.len() - 1]);
        if forall|i: int| 0 <= i < ws.len() ==> hook_well_formed(#[trigger] ws[i].1) {
            assert forall|i: int| 0 <= i < init.len() implies hook_well_formed(#[trigger] init[i].1) by {
                assert(init[i] == ws[i]);
            }
        }
        if (forall|i: int| 0 <= i < init.len() ==> hook_well_formed(#[trigger] init[i].1)) && hook_well_formed(ws.last().1) {
            assert forall|i: int| 0 <= i < ws.len() implies hook_well_formed(#[trigger] ws[i].1) by {
                if i < init.len() {
                    assert(init[i] == ws[i]);
                }
            }
        }
    }
}

/// A configuration passes its check only if every webhook's URL parses
/// and every webhook's JSON body, where there is one, is a JSON document;
/// a configuration with a webhook that breaks either rule is refused for
/// its webhook fields, whatever else it holds.
pub proof fn law_webhook_fields_decide_acceptance(c: Config)
    ensures
        check_result(c) is Ok ==> (c.webhook matches Some(ws) ==> forall|i: int|
            0 <= i < ws@.len() ==> hook_well_formed(#[trigger] ws@[i].1)),
        (c.webhook matches Some(ws) && exists|i: int| 0 <= i < ws@.len() && !hook_well_formed(#[trigger] ws@[i].1))
            ==> check_result(c) is Err && check_result(c)->Err_0 is Invalid,
{
    if let Some(ws) = c.webhook {
        lemma_webhook_issues_empty(ws@);
    }
}

/// Whether `(i, j)` names a record: `j` is a record index of account `i`.
pub open spec fn names_record(d: Seq<(String, Dns)>, p: (int, int)) -> bool {
    0 <= p.0 < d.len() && 0 <= p.1 < d[p.0].1.records@.len()
}

/// Each sync visits every record of every account exactly once: there is
/// one job per configured record, every job names a record, every record
/// has a job, and the jobs come account by account, record by record (so
/// no record is visited twice).
pub proof fn law_sync_jobs_cover_every_record(d: Seq<(String, Dns)>)
    ensures
        record_jobs(d).len() == all_records(d).len(),
        forall|k: int| 0 <= k < record_jobs(d).len() ==> names_record(d, #[trigger] record_jobs(d)[k]),
        forall|i: int, j: int| names_record(d, (i, j)) ==> exists|k: int|
            0 <= k < record_jobs(d).len() && #[trigger] record_jobs(d)[k] == (i, j),
        forall|k1: int, k2: int| 0 <= k1 < k2 < record_jobs(d).len() ==> {
            let a = #[trigger] record_jobs(d)[k1];
            let b = #[trigger] record_jobs(d)[k2];
            a.0 < b.0 || (a.0 == b.0 && a.1 < b.1)
        },
    decreases d.len(),
{
    if d.len() > 0 {
        let init = d.drop_last();
        law_sync_jobs_cover_every_record(init);
        let last_i = (d.len() - 1) as int;
        let n = d.last().1.records@.len();
        let pre = record_jobs(init);
        let suf = Seq::new(n, |j: int| (last_i, j));
        assert(record_jobs(d) == pre + suf);
        let jobs = record_jobs(d);
        assert(d.last() == d[last_i]);
        assert forall|k: int| 0 <= k < jobs.len() implies names_record(d, #[trigger] jobs[k]) by {
            if k < pre.len() {
                assert(jobs[k] == pre[k]);
                assert(names_record(init, pre[k]));
                assert(init[pre[k].0] == d[pre[k].0]);
            } else {
                assert(jobs[k] == suf[k - pre.len()]);
            }
        }
        assert forall|i: int, j: int| names_record(d, (i, j)) implies exists|k: int|
            0 <= k < jobs.len() && #[trigger] jobs[k] == (i, j) by {
            if i < last_i {
                assert(init[i] == d[i]);
                assert(names_record(init, (i, j)));
                let k = choose|k: int| 0 <= k < pre.len() && #[trigger] pre[k] == (i, j);
                assert(jobs[k] == pre[k]);
            } else {
                let k = pre.len() + j;
                assert(jobs[k] == suf[j]);
            }
        }
        assert forall|k1: int, k2: int| 0 <= k1 < k2 < jobs.len() implies {
            let a = #[trigger] jobs[k1];
            let b = #[trigger] jobs[k2];
            a.0 < b.0 || (a.0 == b.0 && a.1 < b.1)
        } by {
            if k2 < pre.len() {
                assert(jobs[k1] == pre[k1] && jobs[k2] == pre[k2]);
            } else if k1 < pre.len() {
                assert(jobs[k1] == pre[k1]);
                assert(names_record(init, pre[k1]));
                assert(jobs[k2] == suf[k2 - pre.len()]);
            } else {
                assert(jobs[k1] == suf[k1 - pre.len()]);
                assert(jobs[k2] == suf[k2 - pre.len()]);
            }
        }
    }
}

} // verus!
