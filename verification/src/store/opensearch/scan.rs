//! The walk through all document ids of an index.
//!
//! Before an index is listed, culled or destroyed, every document id in it is read, page by
//! page. The server keeps a scroll open for the walk, and it is cleared at the end, whatever
//! the walk came to.

use crate::error::{Error, ErrorModel, Outcome, Result};
use crate::store::opensearch::reads::{decode_ids, decoded_ids};
use crate::store::opensearch::reply::{check_complete, incomplete, PageModel, SearchPage};
use crate::text::{concat, decimal, decimal_string};
use vstd::prelude::*;
#[allow(unused_imports)]
use vstd::string::*;

verus! {

/// A page of the walk.
pub struct ScrollPage {
    pub scroll_id: String,
    pub page: SearchPage,
}

/// What is to be done next.
#[derive(Debug, Clone, Copy, PartialEq, Eq, Structural)]
pub enum ScanAction {
    /// Ask for the next page.
    Scroll,
    /// Clear the scroll.
    Clear,
}

/// A walk: the scroll that is open, and what went wrong, if anything did.
pub struct IdScan {
    index: String,
    scroll_id: String,
    failure: Option<Error>,
}

/// The model of [`IdScan`].
pub struct ScanModel {
    pub index: Seq<char>,
    pub scroll_id: Seq<char>,
    pub failure: Option<ErrorModel>,
}

/// The model of an optional failure.
pub open spec fn failure_model(failure: Option<Error>) -> Option<ErrorModel> {
    match failure {
        Some(e) => Some(e@),
        None => None,
    }
}

impl View for IdScan {
    type V = ScanModel;

    closed spec fn view(&self) -> ScanModel {
        ScanModel {
            index: self.index@,
            scroll_id: self.scroll_id@,
            failure: failure_model(self.failure),
        }
    }
}

/// The error for a page without a scroll.
pub open spec fn empty_scroll(index: Seq<char>) -> ErrorModel {
    ErrorModel::Deserialization(
        "OpenSearch document-ID validation for "@ + index + " returned an empty scroll ID"@,
    )
}

/// Why a page ends the walk, if it does: it is not complete, or holds an id of another kind.
pub open spec fn page_fault(index: Seq<char>, page: PageModel) -> Option<ErrorModel> {
    if page.timed_out || !page.shards.covered() {
        Some(incomplete("OpenSearch document-ID validation for "@ + index, page))
    } else {
        match decoded_ids(page.hits, page.hits.len()) {
            Err(e) => Some(e),
            Ok(_) => None,
        }
    }
}

/// The walk after a page, and what to do next.
pub open spec fn after_page(index: Seq<char>, scroll_id: Seq<char>, page: PageModel) -> (
    ScanModel,
    ScanAction,
) {
    let failure = page_fault(index, page);
    (
        ScanModel { index, scroll_id, failure },
        if failure is Some || page.hits.len() == 0 {
            ScanAction::Clear
        } else {
            ScanAction::Scroll
        },
    )
}

impl ScanModel {
    /// The walk after the request for the next page was answered, and what to do next.
    pub open spec fn after_answer(self, answer: Outcome<(Seq<char>, PageModel)>) -> (
        ScanModel,
        ScanAction,
    ) {
        match answer {
            Err(e) => (ScanModel { failure: Some(e), ..self }, ScanAction::Clear),
            Ok((scroll_id, page)) => if scroll_id.len() == 0 {
                (
                    ScanModel { failure: Some(empty_scroll(self.index)), ..self },
                    ScanAction::Clear,
                )
            } else {
                after_page(self.index, scroll_id, page)
            },
        }
    }

    /// What the walk comes to, once the scroll was cleared or could not be.
    pub open spec fn outcome(self, cleared: Outcome<()>) -> Outcome<bool> {
        match (self.failure, cleared) {
            (None, Ok(_)) => Ok(true),
            (Some(e), Ok(_)) => Err(e),
            (None, Err(e)) => Err(e),
            (Some(scan), Err(clear)) => Err(
                ErrorModel::StoreConnection {
                    message: "OpenSearch document-ID validation for "@ + self.index + " failed: "@
                        + scan.text() + "; scroll cleanup also failed: "@ + clear.text(),
                },
            ),
        }
    }
}

/// The model of an answer.
pub open spec fn answer_model(answer: Result<ScrollPage>) -> Outcome<(Seq<char>, PageModel)> {
    match answer {
        Ok(p) => Ok((p.scroll_id@, p.page@)),
        Err(e) => Err(e@),
    }
}

/// The model of the result of clearing a scroll.
pub open spec fn cleared_model(cleared: Result<()>) -> Outcome<()> {
    match cleared {
        Ok(_) => Ok(()),
        Err(e) => Err(e@),
    }
}

impl IdScan {
    fn judge(index: &str, page: &SearchPage) -> (failure: Option<Error>)
        ensures
            failure_model(failure) == page_fault(index@, page@),
    {
        let request = concat("OpenSearch document-ID validation for ", index);
        match check_complete(request.as_str(), page) {
            Err(e) => Some(e),
            Ok(_) => match decode_ids(&page.hits) {
                Err(e) => Some(e),
                Ok(_) => None,
            },
        }
    }

    fn empty_scroll_error(index: &str) -> (error: Error)
        ensures
            error@ == empty_scroll(index@),
    {
        let mut message = concat("OpenSearch document-ID validation for ", index);
        message.append(" returned an empty scroll ID");
        Error::Deserialization(message)
    }

    /// Starts a walk with its first page. Without a scroll there is nothing to clear.
    pub fn start(index: &str, page: ScrollPage) -> (scan: Result<(Self, ScanAction)>)
        ensures
            match scan {
                Ok((s, action)) => page.scroll_id@.len() > 0 && (s@, action) == after_page(
                    index@,
                    page.scroll_id@,
                    page.page@,
                ),
                Err(e) => page.scroll_id@.len() == 0 && e@ == empty_scroll(index@),
            },
    {
        if page.scroll_id.as_str().is_empty() {
            return Err(IdScan::empty_scroll_error(index));
        }
        let failure = IdScan::judge(index, &page.page);
        let action = if failure.is_some() || page.page.hits.len() == 0 {
            ScanAction::Clear
        } else {
            ScanAction::Scroll
        };
        Ok(
            (
                IdScan { index: index.to_owned(), scroll_id: page.scroll_id, failure },
                action,
            ),
        )
    }

    /// The scroll that is open.
    pub fn scroll_id(&self) -> (id: &str)
        ensures
            id@ == self@.scroll_id,
    {
        self.scroll_id.as_str()
    }

    /// Goes on with the answer to the request for the next page.
    pub fn next(self, answer: Result<ScrollPage>) -> (scan: (Self, ScanAction))
        ensures
            (scan.0@, scan.1) == self@.after_answer(answer_model(answer)),
    {
        match answer {
            Err(e) => (
                IdScan { index: self.index, scroll_id: self.scroll_id, failure: Some(e) },
                ScanAction::Clear,
            ),
            Ok(page) => {
                if page.scroll_id.as_str().is_empty() {
                    let e = IdScan::empty_scroll_error(self.index.as_str());
                    return (
                        IdScan { index: self.index, scroll_id: self.scroll_id, failure: Some(e) },
                        ScanAction::Clear,
                    );
                }
                let failure = IdScan::judge(self.index.as_str(), &page.page);
                let action = if failure.is_some() || page.page.hits.len() == 0 {
                    ScanAction::Clear
                } else {
                    ScanAction::Scroll
                };
                (IdScan { index: self.index, scroll_id: page.scroll_id, failure }, action)
            },
        }
    }

    /// What the walk came to, once the scroll was cleared or could not be.
    pub fn finish(self, cleared: Result<()>) -> (valid: Result<bool>)
        ensures
            match valid {
                Ok(v) => self@.outcome(cleared_model(cleared)) == Ok::<_, ErrorModel>(v),
                Err(e) => self@.outcome(cleared_model(cleared)) == Err::<bool, _>(e@),
            },
    {
        match (self.failure, cleared) {
            (None, Ok(_)) => Ok(true),
            (Some(e), Ok(_)) => Err(e),
            (None, Err(e)) => Err(e),
            (Some(scan), Err(clear)) => {
                let mut message = concat(
                    "OpenSearch document-ID validation for ",
                    self.index.as_str(),
                );
                message.append(" failed: ");
                message.append(scan.message().as_str());
                message.append("; scroll cleanup also failed: ");
                message.append(clear.message().as_str());
                Err(Error::StoreConnection { message })
            },
        }
    }
}

/// A walk succeeds only where no page had a fault; and a fault of the walk is never lost,
/// even where clearing the scroll fails too.
pub proof fn law_scan_reports(scan: ScanModel, cleared: Outcome<()>)
    ensures
        scan.outcome(cleared) is Ok <==> scan.failure is None && cleared is Ok,
{
}

/// Why the answer to clearing a scroll is not acceptable, if it is not.
pub open spec fn clear_fault(scroll_id: Seq<char>, succeeded: bool, freed: u64) -> Option<
    ErrorModel,
> {
    if succeeded {
        None
    } else {
        Some(
            ErrorModel::StoreConnection {
                message: "OpenSearch did not clear scroll "@ + scroll_id + "; num_freed="@
                    + decimal(freed as nat),
            },
        )
    }
}

/// Judges the answer to clearing a scroll.
pub fn judge_clear(scroll_id: &str, succeeded: bool, freed: u64) -> (result: Result<()>)
    ensures
        match result {
            Ok(_) => clear_fault(scroll_id@, succeeded, freed) is None,
            Err(e) => clear_fault(scroll_id@, succeeded, freed) == Some(e@),
        },
{
    if succeeded {
        return Ok(());
    }
    let mut message = concat("OpenSearch did not clear scroll ", scroll_id);
    message.append("; num_freed=");
    message.append(decimal_string(freed).as_str());
    Err(Error::StoreConnection { message })
}

} // verus!
