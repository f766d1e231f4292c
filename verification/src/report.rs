//! What a run of the linter reports besides the diagnostics: the Lua version asked for, the
//! summary line and the order in which the lints are listed.
use crate::ast::bytes_eq;
use crate::lints::{decimal, decimal_string, info, lint_code, LINT_COUNT};
use crate::parser::{Diagnostic, Level};
use crate::scopes::{bytes_less, bytes_lt, lemma_bytes_lt_irreflexive, lemma_bytes_lt_transitive};
use vstd::prelude::*;
use vstd::string::{StringExecFns, StringSliceAdditionalSpecFns};

verus! {

/// The Lua minor version named on the command line: `5.5` or `5.4`.
pub open spec fn version_named(text: Seq<u8>) -> Option<usize> {
    if text == seq![53u8, 46u8, 53u8] {
        Some(5usize)
    } else if text == seq![53u8, 46u8, 52u8] {
        Some(4usize)
    } else {
        None
    }
}

/// Reads the Lua version given on the command line.
pub fn lua_version(text: &[u8]) -> (r: Option<usize>)
    ensures
        r == version_named(text@),
{
    let five = vec![53u8, 46u8, 53u8];
    let four = vec![53u8, 46u8, 52u8];
    if bytes_eq(text, five.as_slice()) {
        Some(5)
    } else if bytes_eq(text, four.as_slice()) {
        Some(4)
    } else {
        None
    }
}

/// How many of `diags` are errors.
pub open spec fn error_count(diags: Seq<Diagnostic>) -> nat
    decreases diags.len(),
{
    if diags.len() == 0 {
        0
    } else {
        error_count(diags.drop_last()) + if diags.last().error {
            1nat
        } else {
            0nat
        }
    }
}

/// The errors and warnings among the diagnostics of a file.
#[derive(Debug, Clone, Copy, PartialEq, Eq, Structural)]
pub struct Tally {
    pub errors: usize,
    pub warnings: usize,
}

/// Counts the errors and the warnings among `diags`.
pub fn tally(diags: &Vec<Diagnostic>) -> (r: Tally)
    ensures
        r.errors == error_count(diags@),
        r.errors + r.warnings == diags@.len(),
{
    let mut errors: usize = 0;
    let mut warnings: usize = 0;
    let mut i: usize = 0;
    while i < diags.len()
        invariant
            i <= diags@.len(),
            errors == error_count(diags@.take(i as int)),
            errors + warnings == i,
        decreases diags@.len() - i,
    {
        assert(diags@.take(i + 1).drop_last() =~= diags@.take(i as int));
        if diags[i].error {
            errors = errors + 1;
        } else {
            warnings = warnings + 1;
        }
        i = i + 1;
    }
    assert(diags@.take(diags@.len() as int) =~= diags@);
    Tally { errors, warnings }
}

/// The plural ending for a count of `n`.
pub open spec fn plural(n: nat) -> Seq<char> {
    if n != 1 {
        "s"@
    } else {
        ""@
    }
}

/// The summary line of a run.
pub open spec fn summary(errors: nat, warnings: nat, files: nat) -> Seq<char> {
    "found "@ + decimal(errors) + " error"@ + plural(errors) + " and "@ + decimal(warnings)
        + " warning"@ + plural(warnings) + " in "@ + decimal(files) + " file"@ + plural(files)
}

fn plural_str(n: usize) -> (r: &'static str)
    ensures
        r@ == plural(n as nat),
{
    if n != 1 {
        "s"
    } else {
        ""
    }
}

/// The summary line: how many errors and warnings were found in how many files.
pub fn summary_text(errors: usize, warnings: usize, files: usize) -> (r: String)
    ensures
        r@ == summary(errors as nat, warnings as nat, files as nat),
{
    let mut t = "found ".to_owned();
    t.append(decimal_string(errors as u64).as_str());
    t.append(" error");
    t.append(plural_str(errors));
    t.append(" and ");
    t.append(decimal_string(warnings as u64).as_str());
    t.append(" warning");
    t.append(plural_str(warnings));
    t.append(" in ");
    t.append(decimal_string(files as u64).as_str());
    t.append(" file");
    t.append(plural_str(files));
    t
}

/// The level of the summary: an error when an error was found, else a warning when a warning
/// was, else a note.
pub fn summary_level(errors: usize, warnings: usize) -> (r: Level)
    ensures
        r == if errors > 0 {
            Level::Error
        } else if warnings > 0 {
            Level::Warning
        } else {
            Level::Note
        },
{
    if errors > 0 {
        Level::Error
    } else if warnings > 0 {
        Level::Warning
    } else {
        Level::Note
    }
}

/// The bytes of the code of lint `i`.
pub open spec fn code_bytes(i: usize) -> Seq<u8> {
    lint_code(i).spec_bytes()
}

/// The lints `order` are listed in order of their codes.
pub open spec fn sorted_by_code(order: Seq<usize>) -> bool {
    forall|j: int, k: int|
        0 <= j < k < order.len() ==> !bytes_lt(#[trigger] code_bytes(order[k]), #[trigger] code_bytes(order[j]))
}

/// The indices of the lints, in order of their codes.
pub fn lints_by_code() -> (r: Vec<usize>)
    ensures
        r@.len() == LINT_COUNT,
        forall|j: int| 0 <= j < r@.len() ==> r@[j] < LINT_COUNT,
        forall|v: usize| v < LINT_COUNT ==> r@.contains(v),
        sorted_by_code(r@),
{
    let mut r: Vec<usize> = Vec::new();
    let mut i: usize = 0;
    while i < LINT_COUNT
        invariant
            i <= LINT_COUNT,
            r@.len() == i,
            forall|j: int| 0 <= j < r@.len() ==> r@[j] < i,
            forall|v: usize| v < i ==> r@.contains(v),
            sorted_by_code(r@),
        decreases LINT_COUNT - i,
    {
        let code = info(i).code.as_bytes();
        let mut p: usize = 0;
        while p < r.len() && !bytes_less(code, info(r[p]).code.as_bytes())
            invariant
                i < LINT_COUNT,
                code@ == code_bytes(i),
                p <= r@.len(),
                forall|j: int| 0 <= j < r@.len() ==> r@[j] < i,
                forall|q: int| 0 <= q < p ==> !bytes_lt(code_bytes(i), #[trigger] code_bytes(r@[q])),
            decreases r@.len() - p,
        {
            p = p + 1;
        }
        let ghost old_r = r@;
        r.insert(p, i);
        assert forall|j: int, k: int| 0 <= j < k < r@.len() implies !bytes_lt(
            #[trigger] code_bytes(r@[k]),
            #[trigger] code_bytes(r@[j]),
        ) by {
            if k < p {
                assert(r@[j] == old_r[j] && r@[k] == old_r[k]);
            } else if k == p {
                assert(r@[j] == old_r[j]);
            } else if j > p {
                assert(r@[j] == old_r[j - 1] && r@[k] == old_r[k - 1]);
            } else if j == p {
                // the old element that now follows `i` comes after old position `p`
                assert(r@[k] == old_r[k - 1]);
                assert(bytes_lt(code_bytes(i), code_bytes(old_r[p as int])));
                if bytes_lt(code_bytes(old_r[k - 1]), code_bytes(i)) {
                    lemma_bytes_lt_transitive(code_bytes(old_r[k - 1]), code_bytes(i), code_bytes(old_r[p as int]));
                    if k - 1 == p {
                        lemma_bytes_lt_irreflexive(code_bytes(old_r[p as int]));
                    }
                }
            } else {
                assert(r@[j] == old_r[j] && r@[k] == old_r[k - 1]);
            }
        }
        assert forall|v: usize| v < i + 1 implies r@.contains(v) by {
            if v == i {
                assert(r@[p as int] == i);
            } else {
                assert(old_r.contains(v));
                let w = choose|w: int| 0 <= w < old_r.len() && old_r[w] == v;
                if w < p {
                    assert(r@[w] == v);
                } else {
                    assert(r@[w + 1] == v);
                }
            }
        }
        i = i + 1;
    }
    r
}

} // verus!
