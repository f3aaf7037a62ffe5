//! Searching a text for the lines that hold a query.

use crate::text::{after_first_line, contains, first_line, lines_of, occurs_in, same_text, split_first_line};
use vstd::prelude::*;
use vstd::string::*;
use vstd::utf8::*;

verus! {

/// What `str::to_lowercase` makes of a text.
pub uninterp spec fn lowercase(text: Seq<char>) -> Seq<char>;

/// The lowercase form of a text, by `str::to_lowercase` of the standard
/// library. The contract only gives the result its name: the same text has
/// the same lowercase form, whatever that is.
#[verifier::external_body]
fn to_lowercase(text: &str) -> (lower: String)
    ensures
        lower@ == lowercase(text@),
{
    text.to_lowercase()
}

/// The arguments were not a program name, a query and a path.
#[derive(Clone, Copy, Debug, PartialEq, Eq, Structural)]
pub enum GrepError {
    InvalidInput,
}

impl GrepError {
    /// What to tell the user.
    pub fn message(&self) -> (text: String)
        ensures
            text@ == "need 2 arguments, [query] [path]"@,
    {
        "need 2 arguments, [query] [path]".to_string()
    }
}

/// What to search for, where, and whether case counts.
#[derive(Debug)]
pub struct Config {
    pub query: String,
    pub path: String,
    pub ignore_case: bool,
}

/// Whether a setting switches case off: it does when it is `1`, `true`,
/// `TRUE` or `True`, and not when it is anything else or missing.
pub open spec fn ignores_case(setting: Option<Seq<char>>) -> bool {
    match setting {
        Some(v) => v == "1"@ || v == "true"@ || v == "TRUE"@ || v == "True"@,
        None => false,
    }
}

/// The view of an optional text.
pub open spec fn setting_view(setting: Option<&str>) -> Option<Seq<char>> {
    match setting {
        Some(v) => Some(v@),
        None => None,
    }
}

/// Whether the setting, as read from the environment, switches case off.
pub fn ignore_case_from(setting: Option<&str>) -> (b: bool)
    ensures
        b == ignores_case(setting_view(setting)),
{
    match setting {
        Some(v) => same_text(v, "1") || same_text(v, "true") || same_text(v, "TRUE") || same_text(v, "True"),
        None => false,
    }
}

impl Config {
    /// Reads the configuration from the arguments of the program: its own
    /// name, the query and the path, no more and no less. `setting` is the
    /// value of the case switch in the environment, if it is set.
    pub fn new(args: &[String], setting: Option<&str>) -> (r: Result<Config, GrepError>)
        ensures
            r is Ok <==> args@.len() == 3,
            r matches Ok(c) ==> c.query@ == args@[1]@ && c.path@ == args@[2]@ && c.ignore_case == ignores_case(
                setting_view(setting),
            ),
            r matches Err(e) ==> e == GrepError::InvalidInput,
    {
        if args.len() != 3 {
            return Err(GrepError::InvalidInput);
        }
        let ignore_case = ignore_case_from(setting);
        Ok(Config { query: args[1].clone(), path: args[2].clone(), ignore_case })
    }

    /// Reads the configuration from arguments that are handed over one by
    /// one. The argument at place 1 is the query and the one at place 2
    /// the path; an argument at any other place is refused, the program's
    /// own name at place 0 included. So only no argument at all is
    /// accepted, and leaves query and path empty.
    pub fn iter_new(args: Vec<String>, setting: Option<&str>) -> (r: Result<Config, GrepError>)
        ensures
            r is Ok <==> args@.len() == 0,
            r matches Ok(c) ==> c.query@.len() == 0 && c.path@.len() == 0 && c.ignore_case == ignores_case(
                setting_view(setting),
            ),
            r matches Err(e) ==> e == GrepError::InvalidInput,
    {
        let ignore_case = ignore_case_from(setting);
        let mut cfg = Config { query: String::new(), path: String::new(), ignore_case };
        let mut index: usize = 0;
        let n = args.len();
        while index < n
            invariant
                index <= n,
                n == args@.len(),
                index == 0,
                cfg.query@.len() == 0,
                cfg.path@.len() == 0,
                cfg.ignore_case == ignores_case(setting_view(setting)),
            decreases n - index,
        {
            let arg = args[index].clone();
            match index {
                1 => {
                    cfg.query = arg;
                },
                2 => {
                    cfg.path = arg;
                },
                _ => {
                    return Err(GrepError::InvalidInput);
                },
            }
            index = index + 1;
        }
        Ok(cfg)
    }
}

/// The text as it is compared: in lowercase when case does not count.
pub open spec fn folded(ignore_case: bool, text: Seq<char>) -> Seq<char> {
    if ignore_case {
        lowercase(text)
    } else {
        text
    }
}

/// Whether a line, given by its bytes, holds the query.
pub open spec fn line_matches(ignore_case: bool, query: Seq<char>, line: Seq<u8>) -> bool {
    occurs_in(encode_utf8(folded(ignore_case, query)), encode_utf8(folded(ignore_case, decode_utf8(line))))
}

/// The lines among `lines` that hold the query, in order.
pub open spec fn matching(ignore_case: bool, query: Seq<char>, lines: Seq<Seq<u8>>) -> Seq<Seq<u8>>
    decreases lines.len(),
{
    if lines.len() == 0 {
        Seq::empty()
    } else {
        let before = matching(ignore_case, query, lines.drop_last());
        if line_matches(ignore_case, query, lines.last()) {
            before.push(lines.last())
        } else {
            before
        }
    }
}

/// `found` holds exactly the lines `expected`, in order.
pub open spec fn lines_are(found: Seq<&str>, expected: Seq<Seq<u8>>) -> bool {
    &&& found.len() == expected.len()
    &&& forall|i: int| 0 <= i < found.len() ==> (#[trigger] found[i]).spec_bytes() == expected[i]
}

/// Whether `line` holds `needle`, which is the query as it is compared.
fn line_holds(ignore_case: bool, needle: &str, line: &str) -> (hit: bool)
    ensures
        hit == occurs_in(needle.spec_bytes(), encode_utf8(folded(ignore_case, line@))),
{
    if ignore_case {
        let lower = to_lowercase(line);
        contains(lower.as_str(), needle)
    } else {
        contains(line, needle)
    }
}

/// The query as it is compared.
fn fold_query(ignore_case: bool, query: &str) -> (needle: String)
    ensures
        needle@ == folded(ignore_case, query@),
{
    if ignore_case {
        to_lowercase(query)
    } else {
        query.to_string()
    }
}

/// The lines of `contents`.
pub fn lines<'a>(contents: &'a str) -> (all: Vec<&'a str>)
    ensures
        lines_are(all@, lines_of(contents.spec_bytes())),
{
    let mut all: Vec<&'a str> = Vec::new();
    let mut rest = contents;
    let ghost mut done: Seq<Seq<u8>> = Seq::empty();
    while rest.as_bytes().len() > 0
        invariant
            lines_of(contents.spec_bytes()) == done + lines_of(rest.spec_bytes()),
            lines_are(all@, done),
        decreases rest.spec_bytes().len(),
    {
        let (line, tail) = split_first_line(rest);
        proof {
            done = done.push(line.spec_bytes());
        }
        all.push(line);
        rest = tail;
    }
    all
}

/// The lines of `contents` that hold `query`, in the order in which they
/// stand. With `ignore_case` the query and each line are compared in
/// lowercase; the lines come back as they stand.
pub fn search<'a>(ignore_case: bool, query: &str, contents: &'a str) -> (r: Result<Vec<&'a str>, GrepError>)
    ensures
        r matches Ok(found) && lines_are(found@, matching(ignore_case, query@, lines_of(contents.spec_bytes()))),
{
    let needle = fold_query(ignore_case, query);
    let mut results: Vec<&'a str> = Vec::new();
    let mut rest = contents;
    let ghost mut done: Seq<Seq<u8>> = Seq::empty();
    while rest.as_bytes().len() > 0
        invariant
            needle@ == folded(ignore_case, query@),
            lines_of(contents.spec_bytes()) == done + lines_of(rest.spec_bytes()),
            lines_are(results@, matching(ignore_case, query@, done)),
        decreases rest.spec_bytes().len(),
    {
        let (line, tail) = split_first_line(rest);
        let hit = line_holds(ignore_case, needle.as_str(), line);
        proof {
            assert(done.push(line.spec_bytes()).drop_last() =~= done);
            encode_utf8_decode_utf8(line@);
            done = done.push(line.spec_bytes());
        }
        if hit {
            results.push(line);
        }
        rest = tail;
    }
    Ok(results)
}

/// The same as [`search`], made by first cutting `contents` into lines and
/// then keeping those that hold the query.
pub fn filter_search<'a>(ignore_case: bool, query: &str, contents: &'a str) -> (r: Result<
    Vec<&'a str>,
    GrepError,
>)
    ensures
        r matches Ok(found) && lines_are(found@, matching(ignore_case, query@, lines_of(contents.spec_bytes()))),
{
    let all = lines(contents);
    let ghost expected = lines_of(contents.spec_bytes());
    let mut results: Vec<&'a str> = Vec::new();
    let mut i: usize = 0;
    while i < all.len()
        invariant
            i <= all@.len(),
            lines_are(all@, expected),
            lines_are(results@, matching(ignore_case, query@, expected.take(i as int))),
        decreases all.len() - i,
    {
        let line = all[i];
        let needle = fold_query(ignore_case, query);
        let hit = line_holds(ignore_case, needle.as_str(), line);
        proof {
            assert(expected.take(i + 1).drop_last() =~= expected.take(i as int));
            encode_utf8_decode_utf8(line@);
        }
        if hit {
            results.push(line);
        }
        i = i + 1;
    }
    proof {
        assert(expected.take(i as int) =~= expected);
    }
    Ok(results)
}

} // verus!
