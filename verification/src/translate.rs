//! The flag table and its rewrite rules: each supported source flag maps
//! to one rule variant, and applying the rule to a logical argument
//! yields the target tool's form of that argument.

use vstd::prelude::*;

use crate::text::first_space;
use crate::text::lemma_first_space_bounds;

verus! {

/// How a recognized flag token is rewritten.
///
/// - `Plain`: the token and the space after it become `prefix`, so the
///   value follows it directly (`-m 9` to `--timeout=9`).
/// - `Header`: like `Plain`, synthesizing a double-quoted header
///   directive: a closing quote is appended (`-e R` to
///   `--header="Referer: R"`).
/// - `EscapedHeader`: the extra-header flag: the value's backslashes are
///   doubled and the whole value stands in single quotes (`-H a` to
///   `--header 'a'`).
/// - `Bare`: a flag with no value: the token itself becomes `target`,
///   and anything after the token is kept (`-k` to
///   `--no-check-certificate`).
pub enum Rule {
    Plain { prefix: String },
    Header { prefix: String },
    EscapedHeader,
    Bare { target: String },
}

/// The mathematical shape of a `Rule`: the same variants over character
/// sequences.
pub enum RuleView {
    Plain { prefix: Seq<char> },
    Header { prefix: Seq<char> },
    EscapedHeader,
    Bare { target: Seq<char> },
}

impl View for Rule {
    type V = RuleView;

    open spec fn view(&self) -> RuleView {
        match self {
            Rule::Plain { prefix } => RuleView::Plain { prefix: prefix@ },
            Rule::Header { prefix } => RuleView::Header { prefix: prefix@ },
            Rule::EscapedHeader => RuleView::EscapedHeader,
            Rule::Bare { target } => RuleView::Bare { target: target@ },
        }
    }
}

/// The translation table: the rewrite rule for a source flag token, or
/// `None` for a token with no translation.
pub open spec fn rule_for(w: Seq<char>) -> Option<RuleView> {
    if w == "-b"@ {
        Some(RuleView::Plain { prefix: "--load-cookies="@ })
    } else if w == "-c"@ {
        Some(RuleView::Plain { prefix: "--save-cookies="@ })
    } else if w == "-d"@ {
        Some(RuleView::Plain { prefix: "--post-data="@ })
    } else if w == "-e"@ {
        Some(RuleView::Header { prefix: "--header=\"Referer: "@ })
    } else if w == "-g"@ {
        Some(RuleView::Bare { target: "--no-glob"@ })
    } else if w == "-k"@ {
        Some(RuleView::Bare { target: "--no-check-certificate"@ })
    } else if w == "-m"@ {
        Some(RuleView::Plain { prefix: "--timeout="@ })
    } else if w == "-o"@ {
        Some(RuleView::Plain { prefix: "--output-document="@ })
    } else if w == "-r"@ {
        Some(RuleView::Header { prefix: "--header=\"Range: bytes="@ })
    } else if w == "-s"@ {
        Some(RuleView::Bare { target: "--quiet"@ })
    } else if w == "-u"@ {
        Some(RuleView::Plain { prefix: "--user="@ })
    } else if w == "-z"@ {
        Some(RuleView::Header { prefix: "--header=\"If-Modified-Since: "@ })
    } else if w == "-A"@ {
        Some(RuleView::Header { prefix: "--header=\"User-Agent: "@ })
    } else if w == "-C"@ {
        Some(RuleView::Plain { prefix: "--start-pos="@ })
    } else if w == "-E"@ {
        Some(RuleView::Plain { prefix: "--certificate="@ })
    } else if w == "-H"@ {
        Some(RuleView::EscapedHeader)
    } else if w == "-I"@ {
        Some(RuleView::Bare { target: "--method=HEAD"@ })
    } else if w == "-T"@ {
        Some(RuleView::Plain { prefix: "--method=PUT --body-file="@ })
    } else if w == "-X"@ {
        Some(RuleView::Plain { prefix: "--method="@ })
    } else if w == "--compressed"@ {
        Some(RuleView::Bare { target: "--compression=auto"@ })
    } else if w == "--connect-timeout"@ {
        Some(RuleView::Plain { prefix: "--timeout="@ })
    } else if w == "--retry"@ {
        Some(RuleView::Plain { prefix: "--tries="@ })
    } else {
        None
    }
}

/// Looks a flag token up in the translation table.
pub fn lookup_rule(w: &str) -> (r: Option<Rule>)
    ensures
        match r {
            Some(rule) => rule_for(w@) == Some(rule@),
            None => rule_for(w@) is None,
        },
{
    if crate::text::str_eq(w, "-b") {
        Some(Rule::Plain { prefix: String::from_str("--load-cookies=") })
    } else if crate::text::str_eq(w, "-c") {
        Some(Rule::Plain { prefix: String::from_str("--save-cookies=") })
    } else if crate::text::str_eq(w, "-d") {
        Some(Rule::Plain { prefix: String::from_str("--post-data=") })
    } else if crate::text::str_eq(w, "-e") {
        Some(Rule::Header { prefix: String::from_str("--header=\"Referer: ") })
    } else if crate::text::str_eq(w, "-g") {
        Some(Rule::Bare { target: String::from_str("--no-glob") })
    } else if crate::text::str_eq(w, "-k") {
        Some(Rule::Bare { target: String::from_str("--no-check-certificate") })
    } else if crate::text::str_eq(w, "-m") {
        Some(Rule::Plain { prefix: String::from_str("--timeout=") })
    } else if crate::text::str_eq(w, "-o") {
        Some(Rule::Plain { prefix: String::from_str("--output-document=") })
    } else if crate::text::str_eq(w, "-r") {
        Some(Rule::Header { prefix: String::from_str("--header=\"Range: bytes=") })
    } else if crate::text::str_eq(w, "-s") {
        Some(Rule::Bare { target: String::from_str("--quiet") })
    } else if crate::text::str_eq(w, "-u") {
        Some(Rule::Plain { prefix: String::from_str("--user=") })
    } else if crate::text::str_eq(w, "-z") {
        Some(Rule::Header { prefix: String::from_str("--header=\"If-Modified-Since: ") })
    } else if crate::text::str_eq(w, "-A") {
        Some(Rule::Header { prefix: String::from_str("--header=\"User-Agent: ") })
    } else if crate::text::str_eq(w, "-C") {
        Some(Rule::Plain { prefix: String::from_str("--start-pos=") })
    } else if crate::text::str_eq(w, "-E") {
        Some(Rule::Plain { prefix: String::from_str("--certificate=") })
    } else if crate::text::str_eq(w, "-H") {
        Some(Rule::EscapedHeader)
    } else if crate::text::str_eq(w, "-I") {
        Some(Rule::Bare { target: String::from_str("--method=HEAD") })
    } else if crate::text::str_eq(w, "-T") {
        Some(Rule::Plain { prefix: String::from_str("--method=PUT --body-file=") })
    } else if crate::text::str_eq(w, "-X") {
        Some(Rule::Plain { prefix: String::from_str("--method=") })
    } else if crate::text::str_eq(w, "--compressed") {
        Some(Rule::Bare { target: String::from_str("--compression=auto") })
    } else if crate::text::str_eq(w, "--connect-timeout") {
        Some(Rule::Plain { prefix: String::from_str("--timeout=") })
    } else if crate::text::str_eq(w, "--retry") {
        Some(Rule::Plain { prefix: String::from_str("--tries=") })
    } else {
        None
    }
}

/// Each backslash of `s` doubled; every other character kept.
pub open spec fn escape_backslashes(s: Seq<char>) -> Seq<char>
    decreases s.len(),
{
    if s.len() == 0 {
        Seq::empty()
    } else {
        escape_backslashes(s.drop_last()) + (if s.last() == '\\' {
            seq!['\\', '\\']
        } else {
            seq![s.last()]
        })
    }
}

/// Doubles the backslashes of `s`.
pub fn escape_value(s: &str) -> (r: String)
    ensures
        r@ == escape_backslashes(s@),
{
    let n = s.unicode_len();
    let mut out = String::new();
    let mut i: usize = 0;
    while i < n
        invariant
            n == s@.len(),
            i <= n,
            out@ == escape_backslashes(s@.take(i as int)),
        decreases n - i,
    {
        let c = s.get_char(i);
        if c == '\\' {
            out.append("\\\\");
            proof {
                reveal_strlit("\\\\");
                assert("\\\\"@ =~= seq!['\\', '\\']);
            }
        } else {
            out.append(s.substring_char(i, i + 1));
            proof {
                assert(s@.subrange(i as int, i + 1) =~= seq![s@[i as int]]);
            }
        }
        proof {
            assert(s@.take(i + 1).drop_last() =~= s@.take(i as int));
            assert(s@.take(i + 1).last() == s@[i as int]);
        }
        i = i + 1;
    }
    proof {
        assert(s@.take(n as int) =~= s@);
    }
    out
}

/// Whether a logical argument carries a value after its flag token.
pub open spec fn has_value(arg: Seq<char>) -> bool {
    first_space(arg) < arg.len()
}

/// The value of a logical argument: everything after the first space.
pub open spec fn flag_value(arg: Seq<char>) -> Seq<char> {
    arg.skip(first_space(arg) + 1)
}

/// The leading flag token of a logical argument: its first
/// space-delimited word.
pub open spec fn first_word(arg: Seq<char>) -> Seq<char> {
    arg.take(first_space(arg))
}

/// The result of rewriting `arg` under `rule`. An argument whose rule
/// expects a value but that carries none is kept as it stands (apart
/// from the closing quote the header rules always append).
pub open spec fn apply_rule_spec(rule: RuleView, arg: Seq<char>) -> Seq<char> {
    match rule {
        RuleView::Plain { prefix } => if has_value(arg) {
            prefix + flag_value(arg)
        } else {
            arg
        },
        RuleView::Header { prefix } => (if has_value(arg) {
            prefix + flag_value(arg)
        } else {
            arg
        }) + "\""@,
        RuleView::EscapedHeader => (if has_value(arg) {
            "--header '"@ + escape_backslashes(flag_value(arg))
        } else {
            arg
        }) + "'"@,
        RuleView::Bare { target } => target + arg.skip(first_space(arg)),
    }
}

/// Rewrites `arg` under `rule`, given the index `j` of the first space
/// of `arg`.
pub fn apply_rule(rule: &Rule, arg: &str, j: usize) -> (r: String)
    requires
        j == first_space(arg@),
    ensures
        r@ == apply_rule_spec(rule@, arg@),
{
    proof {
        lemma_first_space_bounds(arg@);
    }
    let n = arg.unicode_len();
    match rule {
        Rule::Plain { prefix } => {
            if j < n {
                let value = arg.substring_char(j + 1, n);
                proof {
                    assert(value@ =~= flag_value(arg@));
                }
                prefix.clone().concat(value)
            } else {
                arg.to_owned()
            }
        },
        Rule::Header { prefix } => {
            if j < n {
                let value = arg.substring_char(j + 1, n);
                proof {
                    assert(value@ =~= flag_value(arg@));
                }
                prefix.clone().concat(value).concat("\"")
            } else {
                arg.to_owned().concat("\"")
            }
        },
        Rule::EscapedHeader => {
            if j < n {
                let value = arg.substring_char(j + 1, n);
                proof {
                    assert(value@ =~= flag_value(arg@));
                }
                let escaped = escape_value(value);
                String::from_str("--header '").concat(escaped.as_str()).concat("'")
            } else {
                arg.to_owned().concat("'")
            }
        },
        Rule::Bare { target } => {
            let tail = arg.substring_char(j, n);
            proof {
                assert(tail@ =~= arg@.skip(j as int));
            }
            target.clone().concat(tail)
        },
    }
}

} // verus!
