//! Cloudflare: zones, records, paging, and the decisions of a record update.
use vstd::prelude::*;
use vstd::string::StringExecFns;

use crate::config::parse::{Resolv, ResolvType, resolv_type_text};
use crate::error::error_text;
use crate::ip::Gip;
use crate::types::{placeholder_resolve, resolves_to};
use crate::error::Error;
use crate::text::views;

verus! {

/// A zone of the account (what the zone listing reports of it).
#[derive(Debug, Clone)]
pub struct Zone {
    pub id: String,
    pub name: String,
    pub status: String,
    pub paused: bool,
    pub zone_type: String,
    pub permissions: Vec<String>,
}

/// The type of a record as Cloudflare reports it; any type this program
/// does not manage is `Other`.
#[derive(Debug, Clone, Copy, PartialEq, Eq, Structural)]
pub enum RecordType {
    A,
    Aaaa,
    Cname,
    Srv,
    Other,
}

/// A DNS record of a zone (what the record listing reports of it).
#[derive(Debug, Clone)]
pub struct Record {
    pub id: String,
    pub name: String,
    pub record_type: RecordType,
    pub content: String,
    pub proxiable: bool,
    pub proxied: bool,
    pub ttl: i32,
    pub comment: Option<String>,
    pub tags: Vec<String>,
}

/// The paging information of a listing.
#[derive(Debug, Clone, Copy)]
pub struct ResultInfo {
    pub page: i32,
    pub per_page: i32,
    pub total_pages: i32,
    pub count: i32,
    pub total_count: i32,
}

/// One page of the zone listing. `errors` and `messages` hold the text of
/// each reported error or message.
#[derive(Debug, Clone)]
pub struct CloudflareResponse {
    pub result: Vec<Zone>,
    pub result_info: ResultInfo,
    pub success: bool,
    pub errors: Vec<String>,
    pub messages: Vec<String>,
}

/// One page of the record listing of a zone.
#[derive(Debug, Clone)]
pub struct Records {
    pub result: Vec<Record>,
    pub result_info: ResultInfo,
    pub success: bool,
    pub errors: Vec<String>,
    pub messages: Vec<String>,
}

/// The record type the program manages for a configured record type.
pub open spec fn record_type_of(value: ResolvType) -> RecordType {
    match value {
        ResolvType::A => RecordType::A,
        ResolvType::Aaaa => RecordType::Aaaa,
        ResolvType::Cname => RecordType::Cname,
        ResolvType::Srv => RecordType::Srv,
    }
}

/// The name a managed record type is written with in DNS.
pub open spec fn record_type_text(t: RecordType) -> Seq<char> {
    match t {
        RecordType::A => "A"@,
        RecordType::Aaaa => "AAAA"@,
        RecordType::Cname => "CNAME"@,
        RecordType::Srv => "SRV"@,
        RecordType::Other => Seq::empty(),
    }
}

impl RecordType {
    /// The record type of a configured record type.
    pub fn from(value: &ResolvType) -> (r: Self)
        ensures
            r == record_type_of(*value),
    {
        match value {
            ResolvType::A => RecordType::A,
            ResolvType::Aaaa => RecordType::Aaaa,
            ResolvType::Cname => RecordType::Cname,
            ResolvType::Srv => RecordType::Srv,
        }
    }

    /// The name of a managed record type.
    pub fn to_string(&self) -> (s: String)
        requires
            *self != RecordType::Other,
        ensures
            s@ == record_type_text(*self),
    {
        match self {
            RecordType::A => String::from_str("A"),
            RecordType::Aaaa => String::from_str("AAAA"),
            RecordType::Cname => String::from_str("CNAME"),
            RecordType::Srv => String::from_str("SRV"),
            RecordType::Other => vstd::pervasive::unreached(),
        }
    }
}

/// A configured record type and the Cloudflare record type made of it are
/// written with the same name.
pub proof fn law_record_type_text_agrees(t: ResolvType)
    ensures
        record_type_of(t) != RecordType::Other,
        record_type_text(record_type_of(t)) == resolv_type_text(t),
{
}

/// A page of a listing: its paging information, whether it succeeded, its
/// error texts, its message texts and its items; further pages can be
/// merged into it.
pub trait PagesResult: Sized {
    type Item;

    spec fn info(&self) -> ResultInfo;

    spec fn ok(&self) -> bool;

    spec fn error_texts(&self) -> Seq<Seq<char>>;

    spec fn notes(&self) -> Seq<Seq<char>>;

    spec fn items(&self) -> Seq<Self::Item>;

    fn result_info(&self) -> (r: &ResultInfo)
        ensures
            *r == self.info();

    fn success(&self) -> (b: bool)
        ensures
            b == self.ok();

    fn errors(&self) -> (e: &Vec<String>)
        ensures
            views(e@) == self.error_texts();

    fn inner_result(self) -> (v: Vec<Self::Item>)
        ensures
            v@ == self.items();

    fn merge(&mut self, merge: Vec<Self::Item>)
        ensures
            final(self).items() == old(self).items() + merge@,
            final(self).info() == old(self).info(),
            final(self).ok() == old(self).ok(),
            final(self).error_texts() == old(self).error_texts(),
            final(self).notes() == old(self).notes();
}

impl PagesResult for CloudflareResponse {
    type Item = Zone;

    open spec fn info(&self) -> ResultInfo {
        self.result_info
    }

    open spec fn ok(&self) -> bool {
        self.success
    }

    open spec fn error_texts(&self) -> Seq<Seq<char>> {
        views(self.errors@)
    }

    open spec fn notes(&self) -> Seq<Seq<char>> {
        views(self.messages@)
    }

    open spec fn items(&self) -> Seq<Zone> {
        self.result@
    }

    fn result_info(&self) -> (r: &ResultInfo) {
        &self.result_info
    }

    fn success(&self) -> (b: bool) {
        self.success
    }

    fn errors(&self) -> (e: &Vec<String>) {
        &self.errors
    }

    fn inner_result(self) -> (v: Vec<Zone>) {
        self.result
    }

    fn merge(&mut self, merge: Vec<Zone>) {
        let mut m = merge;
        self.result.append(&mut m);
    }
}

impl PagesResult for Records {
    type Item = Record;

    open spec fn info(&self) -> ResultInfo {
        self.result_info
    }

    open spec fn ok(&self) -> bool {
        self.success
    }

    open spec fn error_texts(&self) -> Seq<Seq<char>> {
        views(self.errors@)
    }

    open spec fn notes(&self) -> Seq<Seq<char>> {
        views(self.messages@)
    }

    open spec fn items(&self) -> Seq<Record> {
        self.result@
    }

    fn result_info(&self) -> (r: &ResultInfo) {
        &self.result_info
    }

    fn success(&self) -> (b: bool) {
        self.success
    }

    fn inner_result(self) -> (v: Vec<Record>) {
        self.result
    }

    fn errors(&self) -> (e: &Vec<String>) {
        &self.errors
    }

    fn merge(&mut self, merge: Vec<Record>) {
        let mut m = merge;
        self.result.append(&mut m);
    }
}

/// The texts `xs` joined with `", "`.
pub open spec fn join_comma(xs: Seq<Seq<char>>) -> Seq<char>
    decreases xs.len(),
{
    if xs.len() == 0 {
        Seq::empty()
    } else if xs.len() == 1 {
        xs[0]
    } else {
        join_comma(xs.drop_last()) + ", "@ + xs.last()
    }
}

/// A list of texts the way a list is debug-printed: in brackets, joined
/// with `", "`.
pub open spec fn list_text(xs: Seq<Seq<char>>) -> Seq<char> {
    "["@ + join_comma(xs) + "]"@
}

/// The message of a listing page that reports failure.
pub open spec fn failure_message(errors: Seq<Seq<char>>) -> Seq<char> {
    "success is false: "@ + list_text(errors)
}

fn failure_error(errors: &Vec<String>) -> (e: Error)
    ensures
        e matches Error::Response(m) && m@ == failure_message(views(errors@)),
{
    let mut m = String::from_str("success is false: ");
    m.append("[");
    let ghost start = m@;
    let mut i: usize = 0;
    assert(views(errors@).take(0) =~= Seq::<Seq<char>>::empty());
    while i < errors.len()
        invariant
            i <= errors@.len(),
            start == "success is false: "@ + "["@,
            m@ == start + join_comma(views(errors@).take(i as int)),
        decreases errors@.len() - i,
    {
        let ghost xs = views(errors@).take(i + 1);
        assert(xs.drop_last() =~= views(errors@).take(i as int));
        assert(xs.last() == errors@[i as int]@);
        if i > 0 {
            m.append(", ");
        } else {
            assert(views(errors@).take(0) =~= Seq::<Seq<char>>::empty());
            assert(xs =~= seq![errors@[0]@]);
        }
        m.append(errors[i].as_str());
        assert(m@ =~= start + join_comma(xs));
        i = i + 1;
    }
    assert(views(errors@).take(errors@.len() as int) =~= views(errors@));
    m.append("]");
    assert(m@ =~= failure_message(views(errors@)));
    Error::Response(m)
}

/// What the pager asks for next.
#[derive(Debug)]
pub enum PageAction {
    /// Fetch the page with this number.
    Fetch(usize),
    /// All pages are in; the collected listing is complete.
    Done,
    /// A page reported failure.
    Fail(Error),
}

/// Collects a paged listing: the first page received, with the items of
/// each later page merged into it, and the number of the last page
/// received and of the last page there is.
#[derive(Debug)]
pub struct Pager<T> {
    pub collected: Option<T>,
    pub current: i32,
    pub total: i32,
}

/// Whether a page may be handed to the pager: a later page only while
/// pages remain, and a first page whose number leaves room for the next
/// one unless it is the last.
pub open spec fn page_fits<T: PagesResult>(p: Pager<T>, resp: T) -> bool {
    &&& p.collected is None && resp.ok() ==> resp.info().page != i32::MAX || resp.info().total_pages == i32::MAX
    &&& p.collected is Some ==> p.current < p.total
}

/// `new` is the pager `old` after accepting the successful page `resp`:
/// a first page becomes the collected listing and sets the page numbers; a
/// later page's items are appended and the page number moves on by one.
pub open spec fn page_accepted<T: PagesResult>(old: Pager<T>, resp: T, new: Pager<T>) -> bool {
    match old.collected {
        None => new.collected == Some(resp) && new.current == resp.info().page
            && new.total == resp.info().total_pages,
        Some(c) => new.collected matches Some(c2) && c2.items() == c.items() + resp.items()
            && c2.info() == c.info() && c2.ok() == c.ok() && c2.error_texts() == c.error_texts()
            && c2.notes() == c.notes()
            && new.current == old.current + 1 && new.total == old.total,
    }
}

impl<T: PagesResult> Pager<T> {
    /// A pager that has received nothing yet.
    pub fn new() -> (p: Self)
        ensures
            p.collected is None,
    {
        Pager { collected: None, current: 0, total: 0 }
    }

    /// Takes a received page. A page that reports failure fails the
    /// listing. The first page sets the page count; then each page after
    /// it is fetched in turn, up to the last, and its items are appended.
    pub fn on_page(&mut self, resp: T) -> (a: PageAction)
        requires
            page_fits(*old(self), resp),
        ensures
            !resp.ok() ==> (a matches PageAction::Fail(e) && (e matches Error::Response(m)
                && m@ == failure_message(resp.error_texts())) && *final(self) == *old(self)),
            resp.ok() ==> page_accepted(*old(self), resp, *final(self)),
            resp.ok() ==> (if final(self).current >= final(self).total {
                a is Done
            } else {
                a matches PageAction::Fetch(n) && n == (final(self).current + 1) as usize
            }),
    {
        if !resp.success() {
            let e = failure_error(resp.errors());
            return PageAction::Fail(e);
        }
        match self.collected.take() {
            None => {
                let info = resp.result_info();
                self.current = info.page;
                self.total = info.total_pages;
                self.collected = Some(resp);
            },
            Some(mut c) => {
                let items = resp.inner_result();
                c.merge(items);
                self.current = self.current + 1;
                self.collected = Some(c);
            },
        }
        if self.current >= self.total {
            PageAction::Done
        } else {
            PageAction::Fetch((self.current + 1) as usize)
        }
    }

    /// The collected listing.
    pub fn into_result(self) -> (r: T)
        requires
            self.collected is Some,
        ensures
            r == self.collected->0,
    {
        match self.collected {
            Some(c) => c,
            None => vstd::pervasive::unreached(),
        }
    }
}

/// The items of the pages `pages`, page by page.
pub open spec fn all_items<T: PagesResult>(pages: Seq<T>) -> Seq<T::Item>
    decreases pages.len(),
{
    if pages.len() == 0 {
        Seq::empty()
    } else {
        all_items(pages.drop_last()) + pages.last().items()
    }
}

proof fn lemma_pager_prefix<T: PagesResult>(states: Seq<Pager<T>>, pages: Seq<T>, k: int)
    requires
        1 <= k <= pages.len(),
        states.len() == pages.len() + 1,
        states[0].collected is None,
        forall|i: int| 0 <= i < pages.len() ==> page_accepted(states[i], #[trigger] pages[i], states[i + 1]),
    ensures
        states[k].collected matches Some(c) && c.items() == all_items(pages.take(k))
            && c.info() == pages[0].info() && c.ok() == pages[0].ok()
            && c.error_texts() == pages[0].error_texts() && c.notes() == pages[0].notes(),
        states[k].current == pages[0].info().page + k - 1,
        states[k].total == pages[0].info().total_pages,
    decreases k,
{
    assert(page_accepted(states[k - 1], pages[k - 1], states[k]));
    assert(pages.take(k).drop_last() =~= pages.take(k - 1));
    assert(pages.take(k).last() == pages[k - 1]);
    if k == 1 {
        assert(pages.take(0) =~= Seq::<T>::empty());
        assert(all_items(pages.take(0)) == Seq::<T::Item>::empty());
        assert(all_items(pages.take(1)) == all_items(pages.take(0)) + pages[0].items());
        assert(all_items(pages.take(1)) =~= pages[0].items());
    } else {
        lemma_pager_prefix(states, pages, k - 1);
    }
}

/// A listing gathered page by page holds the items of every page it
/// accepted, in the order the pages came, under the paging information,
/// success flag, errors and messages of the first page; its page number has moved on by one for each later page.
pub proof fn law_pager_collects_pages_in_order<T: PagesResult>(states: Seq<Pager<T>>, pages: Seq<T>)
    requires
        pages.len() >= 1,
        states.len() == pages.len() + 1,
        states[0].collected is None,
        forall|i: int| 0 <= i < pages.len() ==> page_accepted(states[i], #[trigger] pages[i], states[i + 1]),
    ensures
        states.last().collected matches Some(c) && c.items() == all_items(pages) && c.info() == pages[0].info()
            && c.ok() == pages[0].ok() && c.error_texts() == pages[0].error_texts()
            && c.notes() == pages[0].notes(),
        states.last().current == pages[0].info().page + pages.len() - 1,
        states.last().total == pages[0].info().total_pages,
{
    lemma_pager_prefix(states, pages, pages.len() as int);
    assert(pages.take(pages.len() as int) =~= pages);
}

/// How many items a listing page is asked for.
pub const PER_PAGE: usize = 100;

/// The page a listing starts with.
pub const FIRST_PAGE: usize = 1;

/// The address of the zone listing.
pub open spec fn zones_url() -> Seq<char> {
    "https://api.cloudflare.com/client/v4/zones"@
}

/// The address of the record listing of a zone, where new records are
/// created.
pub open spec fn records_url(zone_id: Seq<char>) -> Seq<char> {
    "https://api.cloudflare.com/client/v4/zones/"@ + zone_id + "/dns_records"@
}

/// The address of one record of a zone.
pub open spec fn record_url(zone_id: Seq<char>, record_id: Seq<char>) -> Seq<char> {
    records_url(zone_id) + "/"@ + record_id
}

/// The address of the zone listing.
pub fn zones_api_url() -> (s: String)
    ensures
        s@ == zones_url(),
{
    String::from_str("https://api.cloudflare.com/client/v4/zones")
}

/// The address of the record listing of a zone.
pub fn records_api_url(zone_id: &str) -> (s: String)
    ensures
        s@ == records_url(zone_id@),
{
    let mut s = String::from_str("https://api.cloudflare.com/client/v4/zones/");
    s.append(zone_id);
    s.append("/dns_records");
    s
}

fn record_api_url(zone_id: &str, record_id: &str) -> (s: String)
    ensures
        s@ == record_url(zone_id@, record_id@),
{
    let mut s = records_api_url(zone_id);
    s.append("/");
    s.append(record_id);
    s
}

/// The index of the first zone named `name`, if any.
pub open spec fn first_zone(zs: Seq<Zone>, name: Seq<char>) -> Option<nat>
    decreases zs.len(),
{
    if zs.len() == 0 {
        None
    } else if zs[0].name@ == name {
        Some(0)
    } else {
        match first_zone(zs.drop_first(), name) {
            Some(k) => Some(k + 1),
            None => None,
        }
    }
}

/// The zone named `domain`: the first one of the listing with that name,
/// or the general error "domain not exist: " followed by the domain.
pub fn find_zone<'a>(zones: &'a Vec<Zone>, domain: &String) -> (r: Result<&'a Zone, Error>)
    ensures
        match first_zone(zones@, domain@) {
            Some(k) => k < zones@.len() && (r matches Ok(z) && *z == zones@[k as int]),
            None => r matches Err(Error::General(m)) && m@ == "domain not exist: "@ + domain@,
        },
{
    let mut i: usize = 0;
    assert(zones@.skip(0) =~= zones@);
    while i < zones.len()
        invariant
            i <= zones@.len(),
            first_zone(zones@, domain@) == match first_zone(zones@.skip(i as int), domain@) {
                Some(k) => Some((k + i) as nat),
                None => None::<nat>,
            },
        decreases zones@.len() - i,
    {
        assert(zones@.skip(i as int)[0] == zones@[i as int]);
        assert(zones@.skip(i as int).drop_first() =~= zones@.skip(i + 1));
        if zones[i].name == *domain {
            return Ok(&zones[i]);
        }
        i = i + 1;
    }
    Err(Error::General(String::from_str("domain not exist: ").concat(domain.as_str())))
}

/// The index of the first record named `name` of type `t`, if any.
pub open spec fn first_record(rs: Seq<Record>, name: Seq<char>, t: RecordType) -> Option<nat>
    decreases rs.len(),
{
    if rs.len() == 0 {
        None
    } else if rs[0].name@ == name && rs[0].record_type == t {
        Some(0)
    } else {
        match first_record(rs.drop_first(), name, t) {
            Some(k) => Some(k + 1),
            None => None,
        }
    }
}

fn find_record(rs: &Vec<Record>, name: &String, t: &RecordType) -> (r: Option<usize>)
    ensures
        match first_record(rs@, name@, *t) {
            Some(k) => r matches Some(j) && j == k && j < rs@.len(),
            None => r is None,
        },
{
    let mut i: usize = 0;
    assert(rs@.skip(0) =~= rs@);
    while i < rs.len()
        invariant
            i <= rs@.len(),
            first_record(rs@, name@, *t) == match first_record(rs@.skip(i as int), name@, *t) {
                Some(k) => Some((k + i) as nat),
                None => None::<nat>,
            },
        decreases rs@.len() - i,
    {
        assert(rs@.skip(i as int)[0] == rs@[i as int]);
        assert(rs@.skip(i as int).drop_first() =~= rs@.skip(i + 1));
        if rs[i].name == *name && rs[i].record_type == *t {
            return Some(i);
        }
        i = i + 1;
    }
    None
}

/// The body of a record write.
#[derive(Debug, Clone)]
pub struct UploadRecord {
    pub name: String,
    pub ttl: i32,
    pub record_type: String,
    pub comment: String,
    pub content: String,
    pub private_routing: bool,
    pub proxied: bool,
}

/// The HTTP method of a record write.
#[derive(Debug, Clone, Copy, PartialEq, Eq, Structural)]
pub enum UploadMethod {
    /// Overwrite an existing record.
    Put,
    /// Create a record.
    Post,
}

/// A record write: method, address and body.
#[derive(Debug)]
pub struct RecordUpload {
    pub method: UploadMethod,
    pub url: String,
    pub record: UploadRecord,
}

/// The full name of a configured record: `hostname.domain`.
pub open spec fn full_record_name(resolv: Resolv) -> Seq<char> {
    resolv.hostname@ + "."@ + resolv.domain@
}

/// `r` is what writing the configured record `resolv` into the zone
/// `zone_id`, whose records are `records`, comes to: the write overwrites
/// the first record of the same full name and type, or creates the record
/// where there is none. The body carries the full name, TTL 1 (automatic),
/// the type, an empty comment, the target with its placeholders resolved,
/// and no proxying. A target that cannot be resolved fails the write with a
/// general error showing the resolution error.
pub open spec fn upload_outcome(zone_id: Seq<char>, records: Records, resolv: Resolv, g: Gip, r: Result<RecordUpload, Error>) -> bool {
    match r {
        Err(e) => exists|e0: Error| #[trigger] resolves_to(resolv.target@, g, Err(e0))
            && (e matches Error::General(m) && m@ == error_text(e0)),
        Ok(up) => {
            &&& resolves_to(resolv.target@, g, Ok(up.record.content))
            &&& up.record.name@ == full_record_name(resolv)
            &&& up.record.ttl == 1
            &&& up.record.record_type@ == record_type_text(record_type_of(resolv.rtype))
            &&& up.record.comment@ == Seq::<char>::empty()
            &&& !up.record.private_routing
            &&& !up.record.proxied
            &&& match first_record(records.result@, full_record_name(resolv), record_type_of(resolv.rtype)) {
                Some(k) => up.method == UploadMethod::Put
                    && up.url@ == record_url(zone_id, records.result@[k as int].id@),
                None => up.method == UploadMethod::Post && up.url@ == records_url(zone_id),
            }
        },
    }
}

/// The write that brings a configured record up to date in a zone (see
/// `upload_outcome`).
pub fn overwrite_and_create_record(zone_id: &str, records: &Records, resolv: &Resolv, gip: &Gip) -> (r: Result<RecordUpload, Error>)
    ensures
        upload_outcome(zone_id@, *records, *resolv, *gip, r),
        match r {
            Ok(up) => up.method == UploadMethod::Put ==> exists|k: int|
                0 <= k < records.result@.len()
                    && up.url@ == record_url(zone_id@, #[trigger] records.result@[k].id@)
                    && records.result@[k].name@ == resolv.hostname@ + "."@ + resolv.domain@
                    && records.result@[k].record_type == record_type_of(resolv.rtype),
            Err(_) => true,
        },
{
    proof {
        lemma_first_record_spec(records.result@, full_record_name(*resolv), record_type_of(resolv.rtype));
    }
    let mut full = resolv.hostname.clone();
    full.append(".");
    full.append(resolv.domain.as_str());
    let rtype = RecordType::from(&resolv.rtype);
    let found = find_record(&records.result, &full, &rtype);
    let content = match placeholder_resolve(resolv.target.as_str(), gip) {
        Ok(c) => c,
        Err(e) => {
            let m = e.to_text();
            return Err(Error::General(m));
        },
    };
    let upload_record = UploadRecord {
        name: full,
        ttl: 1,
        record_type: rtype.to_string(),
        comment: String::new(),
        content,
        private_routing: false,
        proxied: false,
    };
    match found {
        Some(k) => Ok(RecordUpload {
            method: UploadMethod::Put,
            url: record_api_url(zone_id, records.result[k].id.as_str()),
            record: upload_record,
        }),
        None => Ok(RecordUpload { method: UploadMethod::Post, url: records_api_url(zone_id), record: upload_record }),
    }
}

/// Where the update of one record stands.
#[derive(Debug, Clone, Copy, PartialEq, Eq, Structural)]
pub enum SyncPhase {
    /// Listing the zones of the account.
    Zones,
    /// Listing the records of the zone named by the record's domain.
    Records,
    /// Waiting for the answer to the record write.
    Uploading,
    /// Nothing more to do.
    Finished,
}

/// What came back for the last action.
#[derive(Debug)]
pub enum SyncEvent {
    /// A page of the zone listing.
    ZonesPage(CloudflareResponse),
    /// A page of the record listing.
    RecordsPage(Records),
    /// The answer to the record write: whether its status was a success.
    Uploaded(bool),
}

/// What the update asks for next.
#[derive(Debug)]
pub enum SyncAction {
    /// Fetch a page of the zone listing.
    FetchZones { url: String, per_page: usize, page: usize },
    /// Fetch a page of the record listing of the zone.
    FetchRecords { url: String, per_page: usize, page: usize },
    /// Send the record write.
    Upload(RecordUpload),
    /// The write was answered: whether the record was updated, and the
    /// line that reports it. The record's triggers run next.
    Finished { updated: bool, message: String },
    /// The update failed with this error.
    Fail(Error),
}

/// The update of one configured record at Cloudflare: list the zones, pick
/// the one named by the record's domain, list its records, then overwrite
/// or create the record.
#[derive(Debug)]
pub struct CloudflareSync {
    pub resolv: Resolv,
    pub phase: SyncPhase,
    pub zones: Pager<CloudflareResponse>,
    pub zone_id: String,
    pub records: Pager<Records>,
}

/// The line that reports the answer to a record write.
pub open spec fn report_message(resolv: Resolv, updated: bool) -> Seq<char> {
    if updated {
        resolv.hostname@ + "."@ + resolv.domain@ + " updated"@
    } else {
        resolv.domain@ + "."@ + resolv.hostname@ + " update fail"@
    }
}

/// Whether `event` is what the update in `s` waits for, and, for a page,
/// one its pager may take.
pub open spec fn event_expected(s: CloudflareSync, event: SyncEvent) -> bool {
    match s.phase {
        SyncPhase::Zones => event matches SyncEvent::ZonesPage(r) && page_fits(s.zones, r),
        SyncPhase::Records => event matches SyncEvent::RecordsPage(r) && page_fits(s.records, r),
        SyncPhase::Uploading => event is Uploaded,
        SyncPhase::Finished => false,
    }
}

fn report_line(resolv: &Resolv, updated: bool) -> (s: String)
    ensures
        s@ == report_message(*resolv, updated),
{
    if updated {
        let mut m = resolv.hostname.clone();
        m.append(".");
        m.append(resolv.domain.as_str());
        m.append(" updated");
        m
    } else {
        let mut m = resolv.domain.clone();
        m.append(".");
        m.append(resolv.hostname.as_str());
        m.append(" update fail");
        m
    }
}

/// Starts the update of `resolv`: the first page of the zone listing is
/// fetched first.
pub fn request(resolv: Resolv) -> (r: (CloudflareSync, SyncAction))
    ensures
        r.0.resolv == resolv,
        r.0.phase == SyncPhase::Zones,
        r.0.zones.collected is None,
        r.1 matches SyncAction::FetchZones { url, per_page, page }
            && url@ == zones_url() && per_page == PER_PAGE && page == FIRST_PAGE,
{
    let s = CloudflareSync {
        resolv,
        phase: SyncPhase::Zones,
        zones: Pager::new(),
        zone_id: String::new(),
        records: Pager::new(),
    };
    (s, SyncAction::FetchZones { url: zones_api_url(), per_page: PER_PAGE, page: FIRST_PAGE })
}

impl CloudflareSync {
    /// Takes what came back for the last action and says what to do next.
    ///
    /// A listing page that reports failure ends the update with that
    /// failure. While pages of a listing remain, the next one is fetched.
    /// When the zone listing is complete, the zone named by the record's
    /// domain is picked (the update fails where there is none) and its
    /// record listing is fetched from the first page. When that listing is
    /// complete, the record write is sent (or the update fails where the
    /// target cannot be resolved). The answer to the write ends the update.
    pub fn step(&mut self, event: SyncEvent, gip: &Gip) -> (a: SyncAction)
        requires
            event_expected(*old(self), event),
        ensures
            final(self).resolv == old(self).resolv,
            old(self).phase == SyncPhase::Zones ==> (event matches SyncEvent::ZonesPage(resp) && {
                let new = *final(self);
                if !resp.ok() {
                    &&& a matches SyncAction::Fail(e) && (e matches Error::Response(m)
                        && m@ == failure_message(resp.error_texts()))
                    &&& new.phase == SyncPhase::Finished
                } else {
                    &&& page_accepted(old(self).zones, resp, new.zones)
                    &&& if new.zones.current < new.zones.total {
                        &&& new.phase == SyncPhase::Zones
                        &&& a matches SyncAction::FetchZones { url, per_page, page }
                            && url@ == zones_url() && per_page == PER_PAGE
                            && page == (new.zones.current + 1) as usize
                    } else {
                        let zs = new.zones.collected->0.result@;
                        match first_zone(zs, new.resolv.domain@) {
                            None => {
                                &&& a matches SyncAction::Fail(e) && (e matches Error::General(m)
                                    && m@ == "domain not exist: "@ + new.resolv.domain@)
                                &&& new.phase == SyncPhase::Finished
                            },
                            Some(k) => {
                                &&& new.phase == SyncPhase::Records
                                &&& new.zone_id@ == zs[k as int].id@
                                &&& new.records.collected is None
                                &&& a matches SyncAction::FetchRecords { url, per_page, page }
                                    && url@ == records_url(new.zone_id@) && per_page == PER_PAGE
                                    && page == FIRST_PAGE
                            },
                        }
                    }
                }
            }),
            old(self).phase == SyncPhase::Records ==> (event matches SyncEvent::RecordsPage(resp) && {
                let new = *final(self);
                &&& new.zone_id@ == old(self).zone_id@
                &&& if !resp.ok() {
                    &&& a matches SyncAction::Fail(e) && (e matches Error::Response(m)
                        && m@ == failure_message(resp.error_texts()))
                    &&& new.phase == SyncPhase::Finished
                } else {
                    &&& page_accepted(old(self).records, resp, new.records)
                    &&& if new.records.current < new.records.total {
                        &&& new.phase == SyncPhase::Records
                        &&& a matches SyncAction::FetchRecords { url, per_page, page }
                            && url@ == records_url(new.zone_id@) && per_page == PER_PAGE
                            && page == (new.records.current + 1) as usize
                    } else {
                        let listing = new.records.collected->0;
                        match a {
                            SyncAction::Upload(up) => new.phase == SyncPhase::Uploading
                                && upload_outcome(new.zone_id@, listing, new.resolv, *gip, Ok(up)),
                            SyncAction::Fail(e) => new.phase == SyncPhase::Finished
                                && upload_outcome(new.zone_id@, listing, new.resolv, *gip, Err(e)),
                            _ => false,
                        }
                    }
                }
            }),
            old(self).phase == SyncPhase::Uploading ==> (event matches SyncEvent::Uploaded(ok) && {
                &&& final(self).phase == SyncPhase::Finished
                &&& a matches SyncAction::Finished { updated, message }
                    && updated == ok && message@ == report_message(final(self).resolv, ok)
            }),
    {
        match event {
            SyncEvent::ZonesPage(resp) => {
                match self.zones.on_page(resp) {
                    PageAction::Fail(e) => {
                        self.phase = SyncPhase::Finished;
                        SyncAction::Fail(e)
                    },
                    PageAction::Fetch(n) => {
                        SyncAction::FetchZones { url: zones_api_url(), per_page: PER_PAGE, page: n }
                    },
                    PageAction::Done => {
                        let found = match &self.zones.collected {
                            Some(c) => match find_zone(&c.result, &self.resolv.domain) {
                                Ok(z) => Ok(z.id.clone()),
                                Err(e) => Err(e),
                            },
                            None => vstd::pervasive::unreached(),
                        };
                        match found {
                            Ok(id) => {
                                self.zone_id = id;
                                self.records = Pager::new();
                                self.phase = SyncPhase::Records;
                                let url = records_api_url(self.zone_id.as_str());
                                SyncAction::FetchRecords { url, per_page: PER_PAGE, page: FIRST_PAGE }
                            },
                            Err(e) => {
                                self.phase = SyncPhase::Finished;
                                SyncAction::Fail(e)
                            },
                        }
                    },
                }
            },
            SyncEvent::RecordsPage(resp) => {
                match self.records.on_page(resp) {
                    PageAction::Fail(e) => {
                        self.phase = SyncPhase::Finished;
                        SyncAction::Fail(e)
                    },
                    PageAction::Fetch(n) => {
                        let url = records_api_url(self.zone_id.as_str());
                        SyncAction::FetchRecords { url, per_page: PER_PAGE, page: n }
                    },
                    PageAction::Done => {
                        let r = match &self.records.collected {
                            Some(listing) => overwrite_and_create_record(self.zone_id.as_str(), listing, &self.resolv, gip),
                            None => vstd::pervasive::unreached(),
                        };
                        match r {
                            Ok(up) => {
                                self.phase = SyncPhase::Uploading;
                                SyncAction::Upload(up)
                            },
                            Err(e) => {
                                self.phase = SyncPhase::Finished;
                                SyncAction::Fail(e)
                            },
                        }
                    },
                }
            },
            SyncEvent::Uploaded(ok) => {
                self.phase = SyncPhase::Finished;
                let message = report_line(&self.resolv, ok);
                SyncAction::Finished { updated: ok, message }
            },
        }
    }
}

proof fn lemma_first_record_spec(rs: Seq<Record>, name: Seq<char>, t: RecordType)
    ensures
        match first_record(rs, name, t) {
            Some(k) => k < rs.len() && rs[k as int].name@ == name && rs[k as int].record_type == t
                && forall|j: int| 0 <= j < k ==> !(rs[j].name@ == name && rs[j].record_type == t),
            None => forall|j: int| 0 <= j < rs.len() ==> !(rs[j].name@ == name && rs[j].record_type == t),
        },
    decreases rs.len(),
{
    if rs.len() > 0 {
        lemma_first_record_spec(rs.drop_first(), name, t);
        assert forall|j: int| 0 < j < rs.len() implies rs[j] == rs.drop_first()[j - 1] by {}
    }
}

/// A record write only ever overwrites a record of the zone whose name is
/// the record's full name `hostname.domain` and whose type is the
/// configured type, the first such record of the listing; where the
/// listing has no such record, the write creates it in the zone.
pub proof fn law_write_targets_matching_record(
    zone_id: Seq<char>,
    records: Records,
    resolv: Resolv,
    g: Gip,
    up: RecordUpload,
)
    requires
        upload_outcome(zone_id, records, resolv, g, Ok(up)),
    ensures
        up.method == UploadMethod::Put ==> exists|k: int|
            0 <= k < records.result@.len()
                && up.url@ == record_url(zone_id, #[trigger] records.result@[k].id@)
                && records.result@[k].name@ == resolv.hostname@ + "."@ + resolv.domain@
                && records.result@[k].record_type == record_type_of(resolv.rtype)
                && forall|j: int| 0 <= j < k ==> !(records.result@[j].name@ == resolv.hostname@ + "."@ + resolv.domain@
                    && records.result@[j].record_type == record_type_of(resolv.rtype)),
        up.method == UploadMethod::Post ==> up.url@ == records_url(zone_id) && forall|j: int|
            0 <= j < records.result@.len() ==> !(records.result@[j].name@ == resolv.hostname@ + "."@ + resolv.domain@
                && records.result@[j].record_type == record_type_of(resolv.rtype)),
{
    let name = full_record_name(resolv);
    let t = record_type_of(resolv.rtype);
    lemma_first_record_spec(records.result@, name, t);
    if let Some(k) = first_record(records.result@, name, t) {
        assert(up.url@ == record_url(zone_id, records.result@[k as int].id@));
    }
}

} // verus!
