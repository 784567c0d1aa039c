//! The server's replies as plain values, and how refusals are reported.

use crate::error::{Error, ErrorModel, Result};
use crate::store::opensearch::document::{DocModel, OpenSearchDoc};
use crate::text::{concat, decimal, decimal_string, option_text, quote, quoted, str_eq, texts};
use vstd::prelude::*;
#[allow(unused_imports)]
use vstd::string::*;

verus! {

/// What went wrong, in the server's words.
#[derive(Debug, PartialEq, Eq)]
pub struct ErrorBody {
    pub kind: String,
    pub reason: String,
}

/// The model of [`ErrorBody`].
pub struct ErrorBodyModel {
    pub kind: Seq<char>,
    pub reason: Seq<char>,
}

impl View for ErrorBody {
    type V = ErrorBodyModel;

    open spec fn view(&self) -> ErrorBodyModel {
        ErrorBodyModel { kind: self.kind@, reason: self.reason@ }
    }
}

impl ErrorBodyModel {
    /// Whether the index does not exist.
    pub open spec fn is_index_not_found(self) -> bool {
        self.kind == "index_not_found_exception"@
    }
}

impl ErrorBody {
    /// Whether the index does not exist.
    pub fn is_index_not_found(&self) -> (absent: bool)
        ensures
            absent == self@.is_index_not_found(),
    {
        str_eq(self.kind.as_str(), "index_not_found_exception")
    }
}

/// The body of a refused request.
#[derive(Debug, PartialEq, Eq)]
pub struct ErrorReply {
    pub error: ErrorBody,
    pub status: u16,
}

/// The model of [`ErrorReply`].
pub struct ErrorReplyModel {
    pub error: ErrorBodyModel,
    pub status: u16,
}

impl View for ErrorReply {
    type V = ErrorReplyModel;

    open spec fn view(&self) -> ErrorReplyModel {
        ErrorReplyModel { error: self.error@, status: self.status }
    }
}

/// Whether an HTTP status stands for success.
pub open spec fn is_success(http: u16) -> bool {
    200 <= http < 300
}

/// Whether a refusal only says that the index does not exist.
pub open spec fn says_absent(http: u16, reply: ErrorReplyModel) -> bool {
    http == 404 && reply.status == 404 && reply.error.is_index_not_found()
}

/// How a refusal is reported. `request` says what was asked for.
pub open spec fn refusal(request: Seq<char>, http: u16, reply: ErrorReplyModel) -> ErrorModel {
    ErrorModel::StoreConnection {
        message: request + " failed with HTTP "@ + decimal(http as nat) + " / body status "@
            + decimal(reply.status as nat) + ": "@ + reply.error.kind + ": "@ + reply.error.reason,
    }
}

/// The error for a refusal.
pub fn refused(request: &str, http: u16, reply: &ErrorReply) -> (error: Error)
    ensures
        error@ == refusal(request@, http, reply@),
{
    let mut message = concat(request, " failed with HTTP ");
    message.append(decimal_string(http as u64).as_str());
    message.append(" / body status ");
    message.append(decimal_string(reply.status as u64).as_str());
    message.append(": ");
    message.append(reply.error.kind.as_str());
    message.append(": ");
    message.append(reply.error.reason.as_str());
    Error::StoreConnection { message }
}

/// Whether a refusal only says that the index does not exist.
pub fn is_absence(http: u16, reply: &ErrorReply) -> (absent: bool)
    ensures
        absent == says_absent(http, reply@),
{
    http == 404 && reply.status == 404 && reply.error.is_index_not_found()
}

/// Accepts a refusal that only says that the index does not exist.
pub fn accept_absence(request: &str, http: u16, reply: &ErrorReply) -> (result: Result<()>)
    ensures
        match result {
            Ok(_) => says_absent(http, reply@),
            Err(e) => !says_absent(http, reply@) && e@ == refusal(request@, http, reply@),
        },
{
    if is_absence(http, reply) {
        Ok(())
    } else {
        Err(refused(request, http, reply))
    }
}

/// How many shards took part.
#[derive(Debug, Clone, Copy, PartialEq, Eq, Structural)]
pub struct ShardSummary {
    pub total: u64,
    pub successful: u64,
    pub skipped: u64,
    pub failed: u64,
}

impl ShardSummary {
    /// Whether a write reached the shards it should.
    pub open spec fn wrote(self) -> bool {
        self.failed == 0 && self.successful != 0 && self.successful <= self.total
    }

    /// Whether a search covered all shards.
    pub open spec fn covered(self) -> bool {
        self.failed == 0 && self.successful + self.skipped <= self.total
    }

    /// The counts of a write in words.
    pub open spec fn write_text(self) -> Seq<char> {
        " reported shards total="@ + decimal(self.total as nat) + ", successful="@ + decimal(
            self.successful as nat,
        ) + ", failed="@ + decimal(self.failed as nat)
    }

    pub fn has_written(&self) -> (ok: bool)
        ensures
            ok == self.wrote(),
    {
        self.failed == 0 && self.successful != 0 && self.successful <= self.total
    }

    pub fn has_covered(&self) -> (ok: bool)
        ensures
            ok == self.covered(),
    {
        self.failed == 0 && self.successful as u128 + self.skipped as u128 <= self.total as u128
    }

    pub fn append_write_text(&self, message: &mut String)
        ensures
            final(message)@ == old(message)@ + self.write_text(),
    {
        let ghost start = message@;
        message.append(" reported shards total=");
        message.append(decimal_string(self.total).as_str());
        message.append(", successful=");
        message.append(decimal_string(self.successful).as_str());
        message.append(", failed=");
        message.append(decimal_string(self.failed).as_str());
        assert(message@ =~= start + self.write_text());
    }
}

/// A page of a search.
#[derive(Debug, PartialEq, Eq)]
pub struct SearchPage {
    pub timed_out: bool,
    pub shards: ShardSummary,
    /// The ids of the documents found.
    pub hits: Vec<String>,
}

/// The model of [`SearchPage`].
pub struct PageModel {
    pub timed_out: bool,
    pub shards: ShardSummary,
    pub hits: Seq<Seq<char>>,
}

impl View for SearchPage {
    type V = PageModel;

    open spec fn view(&self) -> PageModel {
        PageModel { timed_out: self.timed_out, shards: self.shards, hits: texts(self.hits@) }
    }
}

/// How a page that does not cover everything is reported.
pub open spec fn incomplete(request: Seq<char>, page: PageModel) -> ErrorModel {
    ErrorModel::StoreConnection {
        message: request + " was incomplete: timed_out="@ + crate::text::bool_text(page.timed_out)
            + ", shards total="@ + decimal(page.shards.total as nat) + ", successful="@ + decimal(
            page.shards.successful as nat,
        ) + ", skipped="@ + decimal(page.shards.skipped as nat) + ", failed="@ + decimal(
            page.shards.failed as nat,
        ),
    }
}

/// Accepts a page that covers everything.
pub fn check_complete(request: &str, page: &SearchPage) -> (result: Result<()>)
    ensures
        match result {
            Ok(_) => !page.timed_out && page.shards.covered(),
            Err(e) => (page.timed_out || !page.shards.covered()) && e@ == incomplete(
                request@,
                page@,
            ),
        },
{
    if !page.timed_out && page.shards.has_covered() {
        return Ok(());
    }
    let mut message = concat(request, " was incomplete: timed_out=");
    message.append(crate::text::bool_str(page.timed_out));
    message.append(", shards total=");
    message.append(decimal_string(page.shards.total).as_str());
    message.append(", successful=");
    message.append(decimal_string(page.shards.successful).as_str());
    message.append(", skipped=");
    message.append(decimal_string(page.shards.skipped).as_str());
    message.append(", failed=");
    message.append(decimal_string(page.shards.failed).as_str());
    Err(Error::StoreConnection { message })
}

/// The answer to the read of one document.
pub enum GetBody {
    Document { id: String, found: bool, source: Option<OpenSearchDoc> },
    Error(ErrorReply),
}

/// The model of an optional source.
pub open spec fn source_model(source: Option<OpenSearchDoc>) -> Option<DocModel> {
    match source {
        Some(d) => Some(d@),
        None => None,
    }
}

/// One document of a batch read.
pub struct MgetDocument {
    pub id: String,
    pub found: Option<bool>,
    pub source: Option<OpenSearchDoc>,
    pub error: Option<ErrorBody>,
}

/// The model of [`MgetDocument`].
pub struct MgetModel {
    pub id: Seq<char>,
    pub found: Option<bool>,
    pub source: Option<DocModel>,
    pub error: Option<ErrorBodyModel>,
}

/// The model of an optional error.
pub open spec fn error_model(error: Option<ErrorBody>) -> Option<ErrorBodyModel> {
    match error {
        Some(e) => Some(e@),
        None => None,
    }
}

impl View for MgetDocument {
    type V = MgetModel;

    open spec fn view(&self) -> MgetModel {
        MgetModel {
            id: self.id@,
            found: self.found,
            source: source_model(self.source),
            error: error_model(self.error),
        }
    }
}

/// What a bulk request did to one document.
pub struct BulkItemResult {
    pub id: String,
    pub status: u16,
    pub result: Option<String>,
    pub error: Option<ErrorBody>,
    pub shards: Option<ShardSummary>,
}

/// The model of [`BulkItemResult`].
pub struct BulkResultModel {
    pub id: Seq<char>,
    pub status: u16,
    pub result: Option<Seq<char>>,
    pub error: Option<ErrorBodyModel>,
    pub shards: Option<ShardSummary>,
}

impl View for BulkItemResult {
    type V = BulkResultModel;

    open spec fn view(&self) -> BulkResultModel {
        BulkResultModel {
            id: self.id@,
            status: self.status,
            result: option_text(self.result),
            error: error_model(self.error),
            shards: self.shards,
        }
    }
}

/// One item of a bulk reply: what was indexed or deleted.
pub struct BulkItem {
    pub index: Option<BulkItemResult>,
    pub delete: Option<BulkItemResult>,
}

/// The model of [`BulkItem`].
pub struct BulkItemModel {
    pub index: Option<BulkResultModel>,
    pub delete: Option<BulkResultModel>,
}

/// The model of an optional item result.
pub open spec fn item_result_model(result: Option<BulkItemResult>) -> Option<BulkResultModel> {
    match result {
        Some(r) => Some(r@),
        None => None,
    }
}

impl View for BulkItem {
    type V = BulkItemModel;

    open spec fn view(&self) -> BulkItemModel {
        BulkItemModel {
            index: item_result_model(self.index),
            delete: item_result_model(self.delete),
        }
    }
}

/// The reply to a bulk request.
pub struct BulkReply {
    pub errors: bool,
    pub items: Vec<BulkItem>,
}

/// The models of a list of items.
pub open spec fn items_model(items: Seq<BulkItem>) -> Seq<BulkItemModel> {
    items.map_values(|i: BulkItem| i@)
}

/// How an optional text shows.
pub open spec fn shown_option(text: Option<Seq<char>>) -> Seq<char> {
    match text {
        Some(t) => "Some("@ + quoted(t) + ")"@,
        None => "None"@,
    }
}

/// How an optional text shows.
pub fn show_option(text: &Option<String>) -> (shown: String)
    ensures
        shown@ == shown_option(option_text(*text)),
{
    match text {
        Some(t) => {
            let mut shown = concat("Some(", quote(t.as_str()).as_str());
            shown.append(")");
            shown
        },
        None => "None".to_owned(),
    }
}

/// The first `n` names, quoted, with a comma and a space between them.
pub open spec fn quoted_names(names: Seq<Seq<char>>, n: nat) -> Seq<char>
    decreases n,
{
    if n == 0 {
        Seq::empty()
    } else if n == 1 {
        quoted(names[0])
    } else {
        quoted_names(names, (n - 1) as nat) + ", "@ + quoted(names[n - 1])
    }
}

/// How a list of names shows.
pub open spec fn shown_names(names: Seq<Seq<char>>) -> Seq<char> {
    "["@ + quoted_names(names, names.len()) + "]"@
}

/// How a list of names shows.
pub fn show_names(names: &Vec<String>) -> (shown: String)
    ensures
        shown@ == shown_names(texts(names@)),
{
    let ghost all = texts(names@);
    let mut inner = String::new();
    let mut i: usize = 0;
    while i < names.len()
        invariant
            i <= names@.len(),
            all == texts(names@),
            inner@ == quoted_names(all, i as nat),
        decreases names@.len() - i,
    {
        let next = quote(names[i].as_str());
        proof {
            assert(all[i as int] == names@[i as int]@);
            if i == 0 {
                assert(inner@ + next@ =~= next@);
            }
        }
        if i > 0 {
            inner.append(", ");
        }
        inner.append(next.as_str());
        i += 1;
    }
    let mut shown = concat("[", inner.as_str());
    shown.append("]");
    shown
}

} // verus!
