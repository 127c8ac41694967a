//! Where the text of a puzzle is kept and where it comes from: the decisions
//! of the input provider. Reading, writing and fetching are the caller's.

use vstd::prelude::*;
use crate::text::{push_signed_decimal, push_str, signed_decimal, string_from_chars};

verus! {

/// The folder that holds the texts of a year.
pub open spec fn data_folder_of(year: i32) -> Seq<char> {
    "./data/"@ + signed_decimal(year as int)
}

/// The file that holds the text of a puzzle.
pub open spec fn data_file_of(year: i32, day: i32) -> Seq<char> {
    data_folder_of(year) + "/"@ + signed_decimal(day as int) + ".txt"@
}

/// The address that serves the text of a puzzle.
pub open spec fn input_url_of(year: i32, day: i32) -> Seq<char> {
    "https://adventofcode.com/"@ + signed_decimal(year as int) + "/day/"@ + signed_decimal(
        day as int,
    ) + "/input"@
}

/// The site that serves the texts, for which the cookie is meant.
pub fn site_url() -> (url: &'static str)
    ensures
        url@ == "https://adventofcode.com"@,
{
    "https://adventofcode.com"
}

/// The cookie that carries a session token.
pub open spec fn session_cookie_of(session_id: Seq<char>) -> Seq<char> {
    "session="@ + session_id
}

/// The folder that holds the texts of a year.
pub fn data_folder(year: i32) -> (path: String)
    ensures
        path@ == data_folder_of(year),
{
    let mut out: Vec<char> = Vec::new();
    push_str(&mut out, "./data/");
    push_signed_decimal(&mut out, year as i64);
    proof {
        assert(out@ =~= data_folder_of(year));
    }
    string_from_chars(&out)
}

/// The file that holds the text of a puzzle.
pub fn data_file(year: i32, day: i32) -> (path: String)
    ensures
        path@ == data_file_of(year, day),
{
    let mut out: Vec<char> = Vec::new();
    push_str(&mut out, "./data/");
    push_signed_decimal(&mut out, year as i64);
    push_str(&mut out, "/");
    push_signed_decimal(&mut out, day as i64);
    push_str(&mut out, ".txt");
    proof {
        assert(out@ =~= data_file_of(year, day));
    }
    string_from_chars(&out)
}

/// The address that serves the text of a puzzle.
pub fn input_url(year: i32, day: i32) -> (url: String)
    ensures
        url@ == input_url_of(year, day),
{
    let mut out: Vec<char> = Vec::new();
    push_str(&mut out, "https://adventofcode.com/");
    push_signed_decimal(&mut out, year as i64);
    push_str(&mut out, "/day/");
    push_signed_decimal(&mut out, day as i64);
    push_str(&mut out, "/input");
    proof {
        assert(out@ =~= input_url_of(year, day));
    }
    string_from_chars(&out)
}

/// The cookie that carries a session token.
pub fn session_cookie(session_id: &str) -> (cookie: String)
    ensures
        cookie@ == session_cookie_of(session_id@),
{
    let mut out: Vec<char> = Vec::new();
    push_str(&mut out, "session=");
    push_str(&mut out, session_id);
    proof {
        assert(out@ =~= session_cookie_of(session_id@));
    }
    string_from_chars(&out)
}

/// Why no text can be had.
#[derive(Clone, Copy, Debug, PartialEq, Eq, Structural)]
pub enum FetchError {
    /// The text is not kept yet and there is no session token to fetch it with.
    MissingCredential,
}

impl FetchError {
    /// The message for the operator.
    pub fn message(&self) -> (text: String)
        ensures
            text@ == "Please set aoc_session_id parameter to allow download input file"@,
    {
        "Please set aoc_session_id parameter to allow download input file".to_owned()
    }
}

/// What the input provider does next.
#[derive(Debug)]
pub enum FetchStep {
    /// The text is kept: read this file, and fetch nothing.
    UseCached { file: String },
    /// The text is not kept: make the folder, fetch the address with the
    /// cookie, write the answer to the file as it came, and read the file.
    Download { folder: String, file: String, url: String, cookie: String },
}

/// A `FetchStep` as a mathematical value.
pub ghost enum FetchStepView {
    UseCached { file: Seq<char> },
    Download { folder: Seq<char>, file: Seq<char>, url: Seq<char>, cookie: Seq<char> },
}

impl View for FetchStep {
    type V = FetchStepView;

    open spec fn view(&self) -> FetchStepView {
        match self {
            FetchStep::UseCached { file } => FetchStepView::UseCached { file: file@ },
            FetchStep::Download { folder, file, url, cookie } => FetchStepView::Download {
                folder: folder@,
                file: file@,
                url: url@,
                cookie: cookie@,
            },
        }
    }
}

/// The decision of the input provider. A kept text is used and nothing is
/// fetched, with or without a token; a text that is not kept is fetched with
/// the token; without one there is nothing to do but to fail.
pub open spec fn fetch_decision(cached: bool, session_id: Option<Seq<char>>, year: i32, day: i32) -> Result<
    FetchStepView,
    FetchError,
> {
    if cached {
        Ok(FetchStepView::UseCached { file: data_file_of(year, day) })
    } else {
        match session_id {
            None => Err(FetchError::MissingCredential),
            Some(id) => Ok(
                FetchStepView::Download {
                    folder: data_folder_of(year),
                    file: data_file_of(year, day),
                    url: input_url_of(year, day),
                    cookie: session_cookie_of(id),
                },
            ),
        }
    }
}

/// The characters of an optional token.
pub open spec fn token_of(session_id: Option<String>) -> Option<Seq<char>> {
    match session_id {
        Some(id) => Some(id@),
        None => None,
    }
}

/// Decides what the input provider does for a puzzle, given whether its
/// text is kept already.
pub fn plan_fetch(cached: bool, session_id: Option<String>, year: i32, day: i32) -> (r: Result<
    FetchStep,
    FetchError,
>)
    ensures
        match r {
            Ok(step) => fetch_decision(cached, token_of(session_id), year, day) == Ok::<
                FetchStepView,
                FetchError,
            >(step@),
            Err(e) => fetch_decision(cached, token_of(session_id), year, day) == Err::<
                FetchStepView,
                FetchError,
            >(e),
        },
{
    if cached {
        return Ok(FetchStep::UseCached { file: data_file(year, day) });
    }
    match session_id {
        None => Err(FetchError::MissingCredential),
        Some(id) => Ok(
            FetchStep::Download {
                folder: data_folder(year),
                file: data_file(year, day),
                url: input_url(year, day),
                cookie: session_cookie(id.as_str()),
            },
        ),
    }
}

/// A text that is kept is read from its file and nothing is fetched,
/// whether or not there is a token.
pub proof fn law_kept_text_is_not_fetched(session_id: Option<Seq<char>>, year: i32, day: i32)
    ensures
        fetch_decision(true, session_id, year, day) == Ok::<FetchStepView, FetchError>(
            FetchStepView::UseCached { file: data_file_of(year, day) },
        ),
{
}

/// Without a kept text and without a token the provider fails, and fetches
/// nothing.
pub proof fn law_missing_credential(year: i32, day: i32)
    ensures
        fetch_decision(false, None, year, day) == Err::<FetchStepView, FetchError>(
            FetchError::MissingCredential,
        ),
{
}

} // verus!
