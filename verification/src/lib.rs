//! Translates a curl command line into the equivalent wget command line:
//! the arguments are tokenized into flag-plus-value units, each unit is
//! rewritten through a fixed flag table, and the target URL is carried to
//! the end of the rewritten command.

pub mod errors;
pub mod laws;
pub mod text;
pub mod tokenize;
pub mod translate;

pub use errors::Errors;
pub use errors::ErrorsView;

use vstd::prelude::*;

verus! {

use crate::text::is_prefix;
use crate::text::join_words;
use crate::text::split_words;
use crate::tokenize::tokenize_words;
use crate::translate::apply_rule_spec;
use crate::translate::first_word;
use crate::translate::rule_for;

/// What `convert_arg` returns for one logical argument: the URL
/// placeholder and an already-quoted URL pass through; anything else is
/// rewritten through the flag table, or fails when its leading token has
/// no entry there.
pub open spec fn convert_arg_spec(arg: Seq<char>) -> Result<Seq<char>, ErrorsView> {
    if is_prefix("<url>"@, arg) {
        Ok("<url>"@)
    } else if is_prefix("'http"@, arg) {
        Ok(arg)
    } else {
        match rule_for(first_word(arg)) {
            Some(rule) => Ok(apply_rule_spec(rule, arg)),
            None => Err(ErrorsView::ArgConversion(arg)),
        }
    }
}

/// Converts one curl argument to its wget form.
pub fn convert_arg(arg: &str) -> (r: Result<String, Errors>)
    ensures
        match r {
            Ok(t) => convert_arg_spec(arg@) == Ok::<Seq<char>, ErrorsView>(t@),
            Err(e) => convert_arg_spec(arg@) == Err::<Seq<char>, ErrorsView>(e@),
        },
{
    if text::has_prefix(arg, "<url>") {
        Ok(String::from_str("<url>"))
    } else if text::has_prefix(arg, "'http") {
        Ok(arg.to_owned())
    } else {
        let j = text::find_space_from(arg, 0);
        proof {
            text::lemma_first_space_at(arg@, j as int);
        }
        let w = arg.substring_char(0, j);
        proof {
            assert(w@ =~= first_word(arg@));
        }
        match translate::lookup_rule(w) {
            Some(rule) => Ok(translate::apply_rule(&rule, arg, j)),
            None => Err(Errors::ArgConversion(arg.to_owned())),
        }
    }
}

/// Every logical argument translated in order; the first argument that
/// fails aborts the whole translation with its error.
pub open spec fn translate_all(args: Seq<Seq<char>>) -> Result<Seq<Seq<char>>, ErrorsView>
    decreases args.len(),
{
    if args.len() == 0 {
        Ok(Seq::empty())
    } else {
        match convert_arg_spec(args[0]) {
            Err(e) => Err(e),
            Ok(t) => match translate_all(args.drop_first()) {
                Err(e) => Err(e),
                Ok(rest) => Ok(seq![t] + rest),
            },
        }
    }
}

pub proof fn lemma_translate_all_ok(args: Seq<Seq<char>>, out: Seq<Seq<char>>)
    requires
        out.len() == args.len(),
        forall|k: int|
            0 <= k < args.len() ==> convert_arg_spec(args[k]) == Ok::<Seq<char>, ErrorsView>(
                out[k],
            ),
    ensures
        translate_all(args) == Ok::<Seq<Seq<char>>, ErrorsView>(out),
    decreases args.len(),
{
    if args.len() == 0 {
        assert(out =~= Seq::<Seq<char>>::empty());
    } else {
        assert(convert_arg_spec(args[0]) == Ok::<Seq<char>, ErrorsView>(out[0]));
        assert(forall|k: int|
            0 <= k < args.drop_first().len() ==> convert_arg_spec(#[trigger] args.drop_first()[k])
                == Ok::<Seq<char>, ErrorsView>(out.drop_first()[k])) by {
            assert(forall|k: int|
                0 <= k < args.drop_first().len() ==> #[trigger] args.drop_first()[k] == args[k
                    + 1] && out.drop_first()[k] == out[k + 1]);
        }
        lemma_translate_all_ok(args.drop_first(), out.drop_first());
        assert(seq![out[0]] + out.drop_first() =~= out);
    }
}

pub proof fn lemma_translate_all_err(args: Seq<Seq<char>>, i: int, e: ErrorsView)
    requires
        0 <= i < args.len(),
        forall|k: int| 0 <= k < i ==> (#[trigger] convert_arg_spec(args[k])) is Ok,
        convert_arg_spec(args[i]) == Err::<Seq<char>, ErrorsView>(e),
    ensures
        translate_all(args) == Err::<Seq<Seq<char>>, ErrorsView>(e),
    decreases i,
{
    if i == 0 {
    } else {
        assert(convert_arg_spec(args[0]) is Ok);
        assert(forall|k: int|
            0 <= k < args.drop_first().len() ==> #[trigger] args.drop_first()[k] == args[k + 1]);
        lemma_translate_all_err(args.drop_first(), i - 1, e);
    }
}

/// What `convert` returns for a sequence of input fragments: the
/// fragments joined with single spaces, split back into words, scanned
/// into logical arguments with the URL slot last, each argument
/// translated, and the results joined after the target tool's name. The
/// first failing stage decides the error.
pub open spec fn convert_spec(fragments: Seq<Seq<char>>) -> Result<Seq<char>, ErrorsView> {
    match tokenize_words(split_words(join_words(fragments))) {
        Err(e) => Err(e),
        Ok(args) => match translate_all(args) {
            Err(e) => Err(e),
            Ok(ts) => Ok("wget "@ + join_words(ts)),
        },
    }
}

/// Converts a curl command line, given as one or more fragments, to the
/// equivalent wget command line.
pub fn convert(curl: &[String]) -> (r: Result<String, Errors>)
    ensures
        match r {
            Ok(s) => convert_spec(curl.deep_view()) == Ok::<Seq<char>, ErrorsView>(s@),
            Err(e) => convert_spec(curl.deep_view()) == Err::<Seq<char>, ErrorsView>(e@),
        },
{
    let ghost fragments = curl.deep_view();
    let joined = text::join_with_spaces(curl);
    let words = text::split_spaces(joined.as_str());
    let args = match tokenize::tokenize(&words) {
        Ok(a) => a,
        Err(e) => {
            return Err(e);
        },
    };
    let ghost adv = args.deep_view();
    let mut out: Vec<String> = Vec::new();
    let mut i: usize = 0;
    while i < args.len()
        invariant
            fragments == curl.deep_view(),
            tokenize_words(split_words(join_words(fragments))) == Ok::<
                Seq<Seq<char>>,
                ErrorsView,
            >(adv),
            adv == args.deep_view(),
            adv.len() == args@.len(),
            i <= args@.len(),
            out.deep_view().len() == i,
            forall|k: int|
                0 <= k < i ==> convert_arg_spec(adv[k]) == Ok::<Seq<char>, ErrorsView>(
                    out.deep_view()[k],
                ),
        decreases args@.len() - i,
    {
        let ghost old_out = out.deep_view();
        match convert_arg(args[i].as_str()) {
            Ok(t) => {
                out.push(t);
                proof {
                    assert(out.deep_view() =~= old_out.push(out.deep_view().last()));
                }
            },
            Err(e) => {
                proof {
                    assert(adv[i as int] == args@[i as int]@);
                    lemma_translate_all_err(adv, i as int, e@);
                    assert(convert_spec(fragments) == Err::<Seq<char>, ErrorsView>(e@));
                }
                return Err(e);
            },
        }
        i = i + 1;
    }
    proof {
        lemma_translate_all_ok(adv, out.deep_view());
    }
    let translated = out.as_slice();
    proof {
        assert(translated.deep_view() =~= out.deep_view());
    }
    let body = text::join_with_spaces(translated);
    Ok(String::from_str("wget ").concat(body.as_str()))
}

} // verus!
