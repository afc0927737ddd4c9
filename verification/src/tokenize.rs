//! The tokenizer: turns the space-delimited words of a raw command line
//! into an ordered list of logical arguments, with the target URL (or
//! its placeholder) as the last element.

use vstd::prelude::*;

use crate::errors::Errors;
use crate::errors::ErrorsView;
use crate::text::is_prefix;

verus! {

/// `w` wrapped in single quotes.
pub open spec fn quoted(w: Seq<char>) -> Seq<char> {
    "'"@ + w + "'"@
}

/// One left-to-right scan over the remaining words, carrying the open
/// argument list and the URL slot. A word equal to the source tool's
/// name is dropped; a word starting with `http` replaces the URL slot,
/// quoted (the last such word wins); a word starting with a dash opens a
/// new argument; any other word continues the value of the last open
/// argument, joined with a single space, and fails when no argument is
/// open. The URL slot is appended after the last word.
pub open spec fn scan_words(
    ws: Seq<Seq<char>>,
    args: Seq<Seq<char>>,
    url: Seq<char>,
) -> Result<Seq<Seq<char>>, ErrorsView>
    decreases ws.len(),
{
    if ws.len() == 0 {
        Ok(args.push(url))
    } else {
        let w = ws[0];
        let rest = ws.drop_first();
        if w == "curl"@ {
            scan_words(rest, args, url)
        } else if is_prefix("http"@, w) {
            scan_words(rest, args, quoted(w))
        } else if is_prefix("-"@, w) {
            scan_words(rest, args.push(w), url)
        } else if args.len() > 0 {
            scan_words(rest, args.update(args.len() - 1, args.last() + " "@ + w), url)
        } else {
            Err(ErrorsView::InvalidArgument(w))
        }
    }
}

/// The logical arguments of a word sequence: a scan that starts with no
/// open argument and the URL placeholder in the URL slot.
pub open spec fn tokenize_words(ws: Seq<Seq<char>>) -> Result<Seq<Seq<char>>, ErrorsView> {
    scan_words(ws, Seq::empty(), "<url>"@)
}

/// Builds the logical argument list from the words of a command line.
pub fn tokenize(words: &Vec<String>) -> (r: Result<Vec<String>, Errors>)
    ensures
        match r {
            Ok(args) => tokenize_words(words.deep_view()) == Ok::<Seq<Seq<char>>, ErrorsView>(
                args.deep_view(),
            ),
            Err(e) => tokenize_words(words.deep_view()) == Err::<Seq<Seq<char>>, ErrorsView>(e@),
        },
{
    let ghost dv = words.deep_view();
    let mut args: Vec<String> = Vec::new();
    let mut url: String = String::from_str("<url>");
    let mut i: usize = 0;
    proof {
        assert(dv.skip(0) =~= dv);
        assert(args.deep_view() =~= Seq::<Seq<char>>::empty());
    }
    while i < words.len()
        invariant
            dv == words.deep_view(),
            dv.len() == words@.len(),
            i <= words@.len(),
            tokenize_words(dv) == scan_words(dv.skip(i as int), args.deep_view(), url@),
        decreases words@.len() - i,
    {
        let ghost rem = dv.skip(i as int);
        let ghost old_args = args.deep_view();
        proof {
            assert(rem[0] == dv[i as int]);
            assert(rem.drop_first() =~= dv.skip(i + 1));
        }
        let w = &words[i];
        if crate::text::str_eq(w.as_str(), "curl") {
            // the source tool's own name: dropped wherever it appears
        } else if crate::text::has_prefix(w.as_str(), "http") {
            url = String::from_str("'").concat(w.as_str()).concat("'");
        } else if crate::text::has_prefix(w.as_str(), "-") {
            args.push(w.clone());
            proof {
                assert(args.deep_view() =~= old_args.push(rem[0]));
            }
        } else if args.len() > 0 {
            let last = args.pop().unwrap();
            proof {
                assert(args.deep_view() =~= old_args.drop_last());
            }
            args.push(last.concat(" ").concat(w.as_str()));
            proof {
                assert(args.deep_view() =~= old_args.update(
                    old_args.len() - 1,
                    old_args.last() + " "@ + rem[0],
                ));
            }
        } else {
            proof {
                assert(old_args.len() == 0);
            }
            return Err(Errors::InvalidArgument(w.clone()));
        }
        i = i + 1;
    }
    proof {
        assert(dv.skip(words@.len() as int) =~= Seq::<Seq<char>>::empty());
    }
    let ghost final_args = args.deep_view();
    let ghost final_url = url@;
    args.push(url);
    proof {
        assert(args.deep_view() =~= final_args.push(final_url));
    }
    Ok(args)
}

} // verus!
