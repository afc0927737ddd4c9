//! The laws of the library, stated over every input and proved once:
//! what each supported flag translates to, how unknown flags and
//! misplaced value words fail, how multi-word values are kept together,
//! and which URL wins when several appear.

use vstd::prelude::*;

use crate::convert_arg_spec;
use crate::convert_spec;
use crate::errors::ErrorsView;
use crate::text::first_space;
use crate::text::is_prefix;
use crate::text::join_words;
use crate::text::lemma_first_space_at;
use crate::text::split_words;
use crate::tokenize::quoted;
use crate::tokenize::scan_words;
use crate::tokenize::tokenize_words;
use crate::translate::RuleView;
use crate::translate::apply_rule_spec;
use crate::translate::escape_backslashes;
use crate::translate::first_word;
use crate::translate::flag_value;
use crate::translate::has_value;
use crate::translate::rule_for;
use crate::translate_all;

verus! {

/// The translation table read off entry by entry: distinct flag tokens
/// have distinct characters, so each token reaches its own entry.
proof fn lemma_rule_for_keys()
    ensures
        rule_for("-b"@) == Some((RuleView::Plain { prefix: "--load-cookies="@ })),
        rule_for("-c"@) == Some((RuleView::Plain { prefix: "--save-cookies="@ })),
        rule_for("-d"@) == Some((RuleView::Plain { prefix: "--post-data="@ })),
        rule_for("-e"@) == Some((RuleView::Header { prefix: "--header=\"Referer: "@ })),
        rule_for("-g"@) == Some((RuleView::Bare { target: "--no-glob"@ })),
        rule_for("-k"@) == Some((RuleView::Bare { target: "--no-check-certificate"@ })),
        rule_for("-m"@) == Some((RuleView::Plain { prefix: "--timeout="@ })),
        rule_for("-o"@) == Some((RuleView::Plain { prefix: "--output-document="@ })),
        rule_for("-r"@) == Some((RuleView::Header { prefix: "--header=\"Range: bytes="@ })),
        rule_for("-s"@) == Some((RuleView::Bare { target: "--quiet"@ })),
        rule_for("-u"@) == Some((RuleView::Plain { prefix: "--user="@ })),
        rule_for("-z"@) == Some((RuleView::Header { prefix: "--header=\"If-Modified-Since: "@ })),
        rule_for("-A"@) == Some((RuleView::Header { prefix: "--header=\"User-Agent: "@ })),
        rule_for("-C"@) == Some((RuleView::Plain { prefix: "--start-pos="@ })),
        rule_for("-E"@) == Some((RuleView::Plain { prefix: "--certificate="@ })),
        rule_for("-H"@) == Some(RuleView::EscapedHeader),
        rule_for("-I"@) == Some((RuleView::Bare { target: "--method=HEAD"@ })),
        rule_for("-T"@) == Some((RuleView::Plain { prefix: "--method=PUT --body-file="@ })),
        rule_for("-X"@) == Some((RuleView::Plain { prefix: "--method="@ })),
        rule_for("--compressed"@) == Some((RuleView::Bare { target: "--compression=auto"@ })),
        rule_for("--connect-timeout"@) == Some((RuleView::Plain { prefix: "--timeout="@ })),
        rule_for("--retry"@) == Some((RuleView::Plain { prefix: "--tries="@ })),
{
    reveal_strlit("-b");
    reveal_strlit("-c");
    reveal_strlit("-d");
    reveal_strlit("-e");
    reveal_strlit("-g");
    reveal_strlit("-k");
    reveal_strlit("-m");
    reveal_strlit("-o");
    reveal_strlit("-r");
    reveal_strlit("-s");
    reveal_strlit("-u");
    reveal_strlit("-z");
    reveal_strlit("-A");
    reveal_strlit("-C");
    reveal_strlit("-E");
    reveal_strlit("-H");
    reveal_strlit("-I");
    reveal_strlit("-T");
    reveal_strlit("-X");
    reveal_strlit("--compressed");
    reveal_strlit("--connect-timeout");
    reveal_strlit("--retry");
    assert("-b"@.len() == 2 && "-b"@[1] == 'b');
    assert("-c"@.len() == 2 && "-c"@[1] == 'c');
    assert("-d"@.len() == 2 && "-d"@[1] == 'd');
    assert("-e"@.len() == 2 && "-e"@[1] == 'e');
    assert("-g"@.len() == 2 && "-g"@[1] == 'g');
    assert("-k"@.len() == 2 && "-k"@[1] == 'k');
    assert("-m"@.len() == 2 && "-m"@[1] == 'm');
    assert("-o"@.len() == 2 && "-o"@[1] == 'o');
    assert("-r"@.len() == 2 && "-r"@[1] == 'r');
    assert("-s"@.len() == 2 && "-s"@[1] == 's');
    assert("-u"@.len() == 2 && "-u"@[1] == 'u');
    assert("-z"@.len() == 2 && "-z"@[1] == 'z');
    assert("-A"@.len() == 2 && "-A"@[1] == 'A');
    assert("-C"@.len() == 2 && "-C"@[1] == 'C');
    assert("-E"@.len() == 2 && "-E"@[1] == 'E');
    assert("-H"@.len() == 2 && "-H"@[1] == 'H');
    assert("-I"@.len() == 2 && "-I"@[1] == 'I');
    assert("-T"@.len() == 2 && "-T"@[1] == 'T');
    assert("-X"@.len() == 2 && "-X"@[1] == 'X');
    assert("--compressed"@.len() == 12);
    assert("--connect-timeout"@.len() == 17);
    assert("--retry"@.len() == 7);
}

/// A flag token followed by a space and a value dispatches on the token
/// alone, and its rule rewrites the value.
proof fn lemma_value_flag_translates(keysp: Seq<char>, key: Seq<char>, v: Seq<char>, r: RuleView)
    requires
        keysp == key + seq![' '],
        key.len() > 0,
        key[0] == '-',
        forall|k: int| 0 <= k < key.len() ==> key[k] != ' ',
        rule_for(key) == Some(r),
    ensures
        convert_arg_spec(keysp + v) == Ok::<Seq<char>, ErrorsView>(apply_rule_spec(r, keysp + v)),
        has_value(keysp + v),
        first_space(keysp + v) == key.len(),
        flag_value(keysp + v) == v,
        first_word(keysp + v) == key,
{
    let arg = keysp + v;
    assert(forall|k: int| 0 <= k < key.len() ==> arg[k] == key[k]);
    assert(arg[key.len() as int] == ' ');
    lemma_first_space_at(arg, key.len() as int);
    assert(first_word(arg) =~= key);
    assert(flag_value(arg) =~= v);
    assert(!is_prefix("<url>"@, arg)) by {
        reveal_strlit("<url>");
        assert(arg[0] == '-');
    }
    assert(!is_prefix("'http"@, arg)) by {
        reveal_strlit("'http");
        assert(arg[0] == '-');
    }
}

/// A flag token standing alone dispatches on itself, with no value.
proof fn lemma_lone_flag_translates(key: Seq<char>, r: RuleView)
    requires
        key.len() > 0,
        key[0] == '-',
        forall|k: int| 0 <= k < key.len() ==> key[k] != ' ',
        rule_for(key) == Some(r),
    ensures
        convert_arg_spec(key) == Ok::<Seq<char>, ErrorsView>(apply_rule_spec(r, key)),
        !has_value(key),
        first_space(key) == key.len(),
        first_word(key) == key,
{
    lemma_first_space_at(key, key.len() as int);
    assert(first_word(key) =~= key);
    assert(!is_prefix("<url>"@, key)) by {
        reveal_strlit("<url>");
    }
    assert(!is_prefix("'http"@, key)) by {
        reveal_strlit("'http");
    }
}

/// Law: every supported flag that takes a value translates, for every
/// value, to exactly the form the flag table gives: the flag token and
/// its separating space are replaced by the target tool's long-form
/// token, a synthesized header directive, or both target flags at once.
pub proof fn lemma_flag_table_value_flags(v: Seq<char>)
    ensures
        convert_arg_spec("-b "@ + v) == Ok::<Seq<char>, ErrorsView>("--load-cookies="@ + v),
        convert_arg_spec("-c "@ + v) == Ok::<Seq<char>, ErrorsView>("--save-cookies="@ + v),
        convert_arg_spec("-d "@ + v) == Ok::<Seq<char>, ErrorsView>("--post-data="@ + v),
        convert_arg_spec("-e "@ + v) == Ok::<Seq<char>, ErrorsView>(
            "--header=\"Referer: "@ + v + "\""@,
        ),
        convert_arg_spec("-m "@ + v) == Ok::<Seq<char>, ErrorsView>("--timeout="@ + v),
        convert_arg_spec("-o "@ + v) == Ok::<Seq<char>, ErrorsView>("--output-document="@ + v),
        convert_arg_spec("-r "@ + v) == Ok::<Seq<char>, ErrorsView>(
            "--header=\"Range: bytes="@ + v + "\""@,
        ),
        convert_arg_spec("-u "@ + v) == Ok::<Seq<char>, ErrorsView>("--user="@ + v),
        convert_arg_spec("-z "@ + v) == Ok::<Seq<char>, ErrorsView>(
            "--header=\"If-Modified-Since: "@ + v + "\""@,
        ),
        convert_arg_spec("-A "@ + v) == Ok::<Seq<char>, ErrorsView>(
            "--header=\"User-Agent: "@ + v + "\""@,
        ),
        convert_arg_spec("-C "@ + v) == Ok::<Seq<char>, ErrorsView>("--start-pos="@ + v),
        convert_arg_spec("-E "@ + v) == Ok::<Seq<char>, ErrorsView>("--certificate="@ + v),
        convert_arg_spec("-H "@ + v) == Ok::<Seq<char>, ErrorsView>(
            "--header '"@ + escape_backslashes(v) + "'"@,
        ),
        convert_arg_spec("-T "@ + v) == Ok::<Seq<char>, ErrorsView>(
            "--method=PUT --body-file="@ + v,
        ),
        convert_arg_spec("-X "@ + v) == Ok::<Seq<char>, ErrorsView>("--method="@ + v),
        convert_arg_spec("--connect-timeout "@ + v) == Ok::<Seq<char>, ErrorsView>(
            "--timeout="@ + v,
        ),
        convert_arg_spec("--retry "@ + v) == Ok::<Seq<char>, ErrorsView>("--tries="@ + v),
{
    lemma_rule_for_keys();
    reveal_strlit("-b ");
    reveal_strlit("-b");
    assert("-b "@ =~= "-b"@ + seq![' ']);
    lemma_value_flag_translates(
        "-b "@,
        "-b"@,
        v,
        RuleView::Plain { prefix: "--load-cookies="@ },
    );
    reveal_strlit("-c ");
    reveal_strlit("-c");
    assert("-c "@ =~= "-c"@ + seq![' ']);
    lemma_value_flag_translates(
        "-c "@,
        "-c"@,
        v,
        RuleView::Plain { prefix: "--save-cookies="@ },
    );
    reveal_strlit("-d ");
    reveal_strlit("-d");
    assert("-d "@ =~= "-d"@ + seq![' ']);
    lemma_value_flag_translates("-d "@, "-d"@, v, RuleView::Plain { prefix: "--post-data="@ });
    reveal_strlit("-e ");
    reveal_strlit("-e");
    assert("-e "@ =~= "-e"@ + seq![' ']);
    lemma_value_flag_translates(
        "-e "@,
        "-e"@,
        v,
        RuleView::Header { prefix: "--header=\"Referer: "@ },
    );
    reveal_strlit("-m ");
    reveal_strlit("-m");
    assert("-m "@ =~= "-m"@ + seq![' ']);
    lemma_value_flag_translates("-m "@, "-m"@, v, RuleView::Plain { prefix: "--timeout="@ });
    reveal_strlit("-o ");
    reveal_strlit("-o");
    assert("-o "@ =~= "-o"@ + seq![' ']);
    lemma_value_flag_translates(
        "-o "@,
        "-o"@,
        v,
        RuleView::Plain { prefix: "--output-document="@ },
    );
    reveal_strlit("-r ");
    reveal_strlit("-r");
    assert("-r "@ =~= "-r"@ + seq![' ']);
    lemma_value_flag_translates(
        "-r "@,
        "-r"@,
        v,
        RuleView::Header { prefix: "--header=\"Range: bytes="@ },
    );
    reveal_strlit("-u ");
    reveal_strlit("-u");
    assert("-u "@ =~= "-u"@ + seq![' ']);
    lemma_value_flag_translates("-u "@, "-u"@, v, RuleView::Plain { prefix: "--user="@ });
    reveal_strlit("-z ");
    reveal_strlit("-z");
    assert("-z "@ =~= "-z"@ + seq![' ']);
    lemma_value_flag_translates(
        "-z "@,
        "-z"@,
        v,
        RuleView::Header { prefix: "--header=\"If-Modified-Since: "@ },
    );
    reveal_strlit("-A ");
    reveal_strlit("-A");
    assert("-A "@ =~= "-A"@ + seq![' ']);
    lemma_value_flag_translates(
        "-A "@,
        "-A"@,
        v,
        RuleView::Header { prefix: "--header=\"User-Agent: "@ },
    );
    reveal_strlit("-C ");
    reveal_strlit("-C");
    assert("-C "@ =~= "-C"@ + seq![' ']);
    lemma_value_flag_translates("-C "@, "-C"@, v, RuleView::Plain { prefix: "--start-pos="@ });
    reveal_strlit("-E ");
    reveal_strlit("-E");
    assert("-E "@ =~= "-E"@ + seq![' ']);
    lemma_value_flag_translates(
        "-E "@,
        "-E"@,
        v,
        RuleView::Plain { prefix: "--certificate="@ },
    );
    reveal_strlit("-H ");
    reveal_strlit("-H");
    assert("-H "@ =~= "-H"@ + seq![' ']);
    lemma_value_flag_translates("-H "@, "-H"@, v, RuleView::EscapedHeader);
    reveal_strlit("-T ");
    reveal_strlit("-T");
    assert("-T "@ =~= "-T"@ + seq![' ']);
    lemma_value_flag_translates(
        "-T "@,
        "-T"@,
        v,
        RuleView::Plain { prefix: "--method=PUT --body-file="@ },
    );
    reveal_strlit("-X ");
    reveal_strlit("-X");
    assert("-X "@ =~= "-X"@ + seq![' ']);
    lemma_value_flag_translates("-X "@, "-X"@, v, RuleView::Plain { prefix: "--method="@ });
    reveal_strlit("--connect-timeout ");
    reveal_strlit("--connect-timeout");
    assert("--connect-timeout "@ =~= "--connect-timeout"@ + seq![' ']);
    lemma_value_flag_translates(
        "--connect-timeout "@,
        "--connect-timeout"@,
        v,
        RuleView::Plain { prefix: "--timeout="@ },
    );
    reveal_strlit("--retry ");
    reveal_strlit("--retry");
    assert("--retry "@ =~= "--retry"@ + seq![' ']);
    lemma_value_flag_translates("--retry "@, "--retry"@, v, RuleView::Plain { prefix: "--tries="@ });
}

/// Law: every supported flag that takes no value translates, standing
/// alone, to exactly the target form the flag table gives.
pub proof fn lemma_flag_table_bare_flags()
    ensures
        convert_arg_spec("-g"@) == Ok::<Seq<char>, ErrorsView>("--no-glob"@),
        convert_arg_spec("-k"@) == Ok::<Seq<char>, ErrorsView>("--no-check-certificate"@),
        convert_arg_spec("-s"@) == Ok::<Seq<char>, ErrorsView>("--quiet"@),
        convert_arg_spec("-I"@) == Ok::<Seq<char>, ErrorsView>("--method=HEAD"@),
        convert_arg_spec("--compressed"@) == Ok::<Seq<char>, ErrorsView>("--compression=auto"@),
{
    lemma_rule_for_keys();
    reveal_strlit("-g");
    lemma_lone_flag_translates("-g"@, RuleView::Bare { target: "--no-glob"@ });
    assert("--no-glob"@ + "-g"@.skip(2) =~= "--no-glob"@);
    reveal_strlit("-k");
    lemma_lone_flag_translates("-k"@, RuleView::Bare { target: "--no-check-certificate"@ });
    assert("--no-check-certificate"@ + "-k"@.skip(2) =~= "--no-check-certificate"@);
    reveal_strlit("-s");
    lemma_lone_flag_translates("-s"@, RuleView::Bare { target: "--quiet"@ });
    assert("--quiet"@ + "-s"@.skip(2) =~= "--quiet"@);
    reveal_strlit("-I");
    lemma_lone_flag_translates("-I"@, RuleView::Bare { target: "--method=HEAD"@ });
    assert("--method=HEAD"@ + "-I"@.skip(2) =~= "--method=HEAD"@);
    reveal_strlit("--compressed");
    lemma_lone_flag_translates("--compressed"@, RuleView::Bare { target: "--compression=auto"@ });
    assert("--compression=auto"@ + "--compressed"@.skip(12) =~= "--compression=auto"@);
}

/// A word the tokenizer treats as continuing the previous argument's
/// value: not the source tool's name, not `http`-prefixed, not
/// dash-prefixed.
pub open spec fn continues_value(w: Seq<char>) -> bool {
    w != "curl"@ && !is_prefix("http"@, w) && !is_prefix("-"@, w)
}

/// The URL slot after scanning `ws` with the slot initially `url`:
/// every non-tool-name word starting with `http` overwrites it, quoted.
pub open spec fn url_after(ws: Seq<Seq<char>>, url: Seq<char>) -> Seq<char>
    decreases ws.len(),
{
    if ws.len() == 0 {
        url
    } else {
        url_after(
            ws.drop_first(),
            if ws[0] != "curl"@ && is_prefix("http"@, ws[0]) {
                quoted(ws[0])
            } else {
                url
            },
        )
    }
}

/// A successful scan ends with the URL slot as its last element.
proof fn lemma_scan_final_url(ws: Seq<Seq<char>>, args: Seq<Seq<char>>, url: Seq<char>)
    ensures
        scan_words(ws, args, url) matches Ok(res) ==> res.len() >= 1 && res.last() == url_after(
            ws,
            url,
        ),
    decreases ws.len(),
{
    if ws.len() == 0 {
    } else {
        let w = ws[0];
        let rest = ws.drop_first();
        if w == "curl"@ {
            lemma_scan_final_url(rest, args, url);
        } else if is_prefix("http"@, w) {
            lemma_scan_final_url(rest, args, quoted(w));
        } else if is_prefix("-"@, w) {
            lemma_scan_final_url(rest, args.push(w), url);
        } else if args.len() > 0 {
            lemma_scan_final_url(rest, args.update(args.len() - 1, args.last() + " "@ + w), url);
        } else {
        }
    }
}

/// Words that never touch the URL slot leave it as it stands.
proof fn lemma_url_after_no_http(ws: Seq<Seq<char>>, url: Seq<char>)
    requires
        forall|k: int|
            0 <= k < ws.len() ==> (ws[k] == "curl"@ || !is_prefix("http"@, #[trigger] ws[k])),
    ensures
        url_after(ws, url) == url,
    decreases ws.len(),
{
    if ws.len() == 0 {
    } else {
        assert(forall|k: int|
            0 <= k < ws.drop_first().len() ==> #[trigger] ws.drop_first()[k] == ws[k + 1]);
        lemma_url_after_no_http(ws.drop_first(), url);
    }
}

/// The URL slot ends as the quoted form of the last URL word.
proof fn lemma_url_after_last(ws: Seq<Seq<char>>, url: Seq<char>, j: int)
    requires
        0 <= j < ws.len(),
        ws[j] != "curl"@,
        is_prefix("http"@, ws[j]),
        forall|k: int|
            j < k < ws.len() ==> (ws[k] == "curl"@ || !is_prefix("http"@, #[trigger] ws[k])),
    ensures
        url_after(ws, url) == quoted(ws[j]),
    decreases j,
{
    assert(forall|k: int|
        0 <= k < ws.drop_first().len() ==> #[trigger] ws.drop_first()[k] == ws[k + 1]);
    if j == 0 {
        lemma_url_after_no_http(ws.drop_first(), quoted(ws[0]));
    } else {
        let u2 = if ws[0] != "curl"@ && is_prefix("http"@, ws[0]) {
            quoted(ws[0])
        } else {
            url
        };
        lemma_url_after_last(ws.drop_first(), u2, j - 1);
    }
}

/// Law: when several `http`-prefixed words appear in a command that
/// tokenizes, the last of them is the URL: it stands single-quoted as
/// the final logical argument.
pub proof fn lemma_last_url_wins(ws: Seq<Seq<char>>, args: Seq<Seq<char>>, j: int)
    requires
        tokenize_words(ws) == Ok::<Seq<Seq<char>>, ErrorsView>(args),
        0 <= j < ws.len(),
        is_prefix("http"@, ws[j]),
        forall|k: int| j < k < ws.len() ==> !is_prefix("http"@, #[trigger] ws[k]),
    ensures
        args.len() >= 1,
        args.last() == quoted(ws[j]),
{
    assert(ws[j] != "curl"@) by {
        reveal_strlit("curl");
        reveal_strlit("http");
        assert("curl"@[0] == 'c');
        assert("http"@[0] == 'h');
        if ws[j] == "curl"@ {
            assert(ws[j][0] == 'h');
        }
    }
    lemma_scan_final_url(ws, Seq::empty(), "<url>"@);
    lemma_url_after_last(ws, "<url>"@, j);
}

/// With no flag opened yet, the first value-continuing word fails the
/// scan, naming that word.
proof fn lemma_scan_no_open_arg(ws: Seq<Seq<char>>, url: Seq<char>, i: int)
    requires
        0 <= i < ws.len(),
        continues_value(ws[i]),
        forall|k: int|
            0 <= k < i ==> (#[trigger] ws[k] == "curl"@ || is_prefix("http"@, ws[k])),
    ensures
        scan_words(ws, Seq::empty(), url) == Err::<Seq<Seq<char>>, ErrorsView>(
            ErrorsView::InvalidArgument(ws[i]),
        ),
    decreases i,
{
    assert(forall|k: int|
        0 <= k < ws.drop_first().len() ==> #[trigger] ws.drop_first()[k] == ws[k + 1]);
    if i == 0 {
        assert(!is_prefix("-"@, ws[0]));
    } else {
        if ws[0] == "curl"@ {
            lemma_scan_no_open_arg(ws.drop_first(), url, i - 1);
        } else {
            assert(is_prefix("http"@, ws[0]));
            lemma_scan_no_open_arg(ws.drop_first(), quoted(ws[0]), i - 1);
        }
    }
}

/// Law: a value-bearing word that appears before any flag, and is
/// neither the tool's name nor a URL, fails the whole conversion with
/// `InvalidArgument` naming that word.
pub proof fn lemma_value_before_flag_fails(fragments: Seq<Seq<char>>, ws: Seq<Seq<char>>, i: int)
    requires
        ws == split_words(join_words(fragments)),
        0 <= i < ws.len(),
        continues_value(ws[i]),
        forall|k: int|
            0 <= k < i ==> (#[trigger] ws[k] == "curl"@ || is_prefix("http"@, ws[k])),
    ensures
        convert_spec(fragments) == Err::<Seq<char>, ErrorsView>(
            ErrorsView::InvalidArgument(ws[i]),
        ),
{
    lemma_scan_no_open_arg(ws, "<url>"@, i);
}

/// Absorbing the second word into the first keeps the space-join of the
/// whole sequence.
proof fn lemma_join_merge_head(a: Seq<char>, vs: Seq<Seq<char>>)
    requires
        vs.len() >= 1,
    ensures
        join_words(seq![a] + vs) == join_words(seq![a + " "@ + vs[0]] + vs.drop_first()),
{
    let l = seq![a] + vs;
    let r = seq![a + " "@ + vs[0]] + vs.drop_first();
    assert(l.drop_first() =~= vs);
    assert(r.drop_first() =~= vs.drop_first());
    if vs.len() == 1 {
        assert(join_words(l) == a + " "@ + join_words(vs));
        assert(join_words(vs) == vs[0]);
        assert(join_words(r) == r[0]);
    } else {
        assert(join_words(l) == a + " "@ + join_words(vs));
        assert(join_words(vs) == vs[0] + " "@ + join_words(vs.drop_first()));
        assert(join_words(r) == (a + " "@ + vs[0]) + " "@ + join_words(vs.drop_first()));
        assert(a + " "@ + (vs[0] + " "@ + join_words(vs.drop_first())) =~= (a + " "@ + vs[0])
            + " "@ + join_words(vs.drop_first()));
    }
}

/// Value-continuing words all fold into the open argument, joined with
/// single spaces.
proof fn lemma_scan_continuations(
    vs: Seq<Seq<char>>,
    args: Seq<Seq<char>>,
    a: Seq<char>,
    url: Seq<char>,
)
    requires
        forall|k: int| 0 <= k < vs.len() ==> continues_value(#[trigger] vs[k]),
    ensures
        scan_words(vs, args.push(a), url) == Ok::<Seq<Seq<char>>, ErrorsView>(
            args.push(join_words(seq![a] + vs)).push(url),
        ),
    decreases vs.len(),
{
    if vs.len() == 0 {
        assert(seq![a] + vs =~= seq![a]);
        assert(join_words(seq![a]) == a);
    } else {
        assert(forall|k: int|
            0 <= k < vs.drop_first().len() ==> #[trigger] vs.drop_first()[k] == vs[k + 1]);
        let w = vs[0];
        let opened = args.push(a);
        assert(opened.last() == a);
        assert(opened.update(opened.len() - 1, a + " "@ + w) =~= args.push(a + " "@ + w));
        lemma_scan_continuations(vs.drop_first(), args, a + " "@ + w, url);
        lemma_join_merge_head(a, vs);
    }
}

/// Law: a flag word followed only by value-continuing words tokenizes
/// to a single logical argument holding those words joined with single
/// spaces, with the URL placeholder after it. A multi-word flag value
/// is kept verbatim, up to the space-joining.
pub proof fn lemma_multiword_value(ws: Seq<Seq<char>>)
    requires
        ws.len() >= 1,
        is_prefix("-"@, ws[0]),
        forall|k: int| 1 <= k < ws.len() ==> continues_value(#[trigger] ws[k]),
    ensures
        tokenize_words(ws) == Ok::<Seq<Seq<char>>, ErrorsView>(
            seq![join_words(ws), "<url>"@],
        ),
{
    reveal_strlit("-");
    assert(ws[0][0] == '-');
    assert(ws[0] != "curl"@) by {
        reveal_strlit("curl");
        assert("curl"@[0] == 'c');
    }
    assert(!is_prefix("http"@, ws[0])) by {
        reveal_strlit("http");
        assert("http"@[0] == 'h');
        if is_prefix("http"@, ws[0]) {
            assert(ws[0][0] == 'h');
        }
    }
    assert(forall|k: int|
        0 <= k < ws.drop_first().len() ==> #[trigger] ws.drop_first()[k] == ws[k + 1]);
    lemma_scan_continuations(ws.drop_first(), Seq::empty(), ws[0], "<url>"@);
    assert(Seq::<Seq<char>>::empty().push(ws[0]) =~= seq![ws[0]]);
    assert(seq![ws[0]] + ws.drop_first() =~= ws);
    assert(Seq::<Seq<char>>::empty().push(join_words(ws)).push("<url>"@) =~= seq![
        join_words(ws),
        "<url>"@,
    ]);
}

/// Words that are the tool's name or URLs open no argument: the scan
/// ends with only the URL slot appended.
proof fn lemma_scan_curl_http(ws: Seq<Seq<char>>, args: Seq<Seq<char>>, url: Seq<char>)
    requires
        forall|k: int|
            0 <= k < ws.len() ==> (#[trigger] ws[k] == "curl"@ || is_prefix("http"@, ws[k])),
    ensures
        scan_words(ws, args, url) == Ok::<Seq<Seq<char>>, ErrorsView>(
            args.push(url_after(ws, url)),
        ),
    decreases ws.len(),
{
    if ws.len() == 0 {
    } else {
        assert(forall|k: int|
            0 <= k < ws.drop_first().len() ==> #[trigger] ws.drop_first()[k] == ws[k + 1]);
        if ws[0] == "curl"@ {
            lemma_scan_curl_http(ws.drop_first(), args, url);
        } else {
            lemma_scan_curl_http(ws.drop_first(), args, quoted(ws[0]));
        }
    }
}

/// Law: a command whose words are just the tool's name and a single
/// URL converts to the target tool's name followed by that URL,
/// single-quoted.
pub proof fn lemma_single_url_command(fragments: Seq<Seq<char>>, ws: Seq<Seq<char>>, i: int)
    requires
        ws == split_words(join_words(fragments)),
        0 <= i < ws.len(),
        is_prefix("http"@, ws[i]),
        forall|k: int| 0 <= k < ws.len() && k != i ==> #[trigger] ws[k] == "curl"@,
    ensures
        convert_spec(fragments) == Ok::<Seq<char>, ErrorsView>("wget '"@ + ws[i] + "'"@),
{
    reveal_strlit("curl");
    reveal_strlit("http");
    assert("curl"@[0] == 'c');
    assert("http"@[0] == 'h');
    assert(ws[i] != "curl"@) by {
        if ws[i] == "curl"@ {
            assert(ws[i][0] == 'h');
        }
    }
    assert(forall|k: int|
        0 <= k < ws.len() && k != i ==> !(is_prefix("http"@, #[trigger] ws[k]) && ws[k]
            != "curl"@)) by {
        assert(forall|k: int|
            0 <= k < ws.len() && k != i ==> #[trigger] ws[k] == "curl"@);
    }
    lemma_scan_curl_http(ws, Seq::empty(), "<url>"@);
    lemma_url_after_last(ws, "<url>"@, i);
    let q = quoted(ws[i]);
    let toks = Seq::<Seq<char>>::empty().push(q);
    assert(tokenize_words(ws) == Ok::<Seq<Seq<char>>, ErrorsView>(toks));
    assert(convert_arg_spec(q) == Ok::<Seq<char>, ErrorsView>(q)) by {
        reveal_strlit("'");
        reveal_strlit("'http");
        reveal_strlit("<url>");
        assert("'"@[0] == '\'');
        assert(q[0] == '\'');
        assert("<url>"@[0] == '<');
        assert(!is_prefix("<url>"@, q));
        assert(is_prefix("'http"@, q)) by {
            assert("'http"@.len() == 5);
            assert(q.len() == ws[i].len() + 2);
            assert(ws[i].len() >= 4);
            assert(forall|m: int| 1 <= m < 5 ==> q[m] == ws[i][m - 1]);
            assert(forall|m: int| 0 <= m < 4 ==> ws[i][m] == "http"@[m]);
            assert("'http"@[0] == '\'' && "'http"@[1] == 'h' && "'http"@[2] == 't' && "'http"@[3]
                == 't' && "'http"@[4] == 'p');
            assert("http"@[0] == 'h' && "http"@[1] == 't' && "http"@[2] == 't' && "http"@[3]
                == 'p');
        }
    }
    assert(translate_all(toks) == Ok::<Seq<Seq<char>>, ErrorsView>(toks)) by {
        assert(toks.drop_first() =~= Seq::<Seq<char>>::empty());
        assert(translate_all(toks.drop_first()) == Ok::<Seq<Seq<char>>, ErrorsView>(
            Seq::empty(),
        ));
        assert(seq![q] + Seq::<Seq<char>>::empty() =~= toks);
    }
    assert(join_words(toks) == q);
    assert("wget "@ + q =~= "wget '"@ + ws[i] + "'"@) by {
        reveal_strlit("'");
        reveal_strlit("wget ");
        reveal_strlit("wget '");
        assert("wget "@.len() == 5);
        assert("wget '"@.len() == 6);
        assert("wget "@[0] == 'w' && "wget "@[1] == 'g' && "wget "@[2] == 'e' && "wget "@[3]
            == 't' && "wget "@[4] == ' ');
        assert("wget '"@[0] == 'w' && "wget '"@[1] == 'g' && "wget '"@[2] == 'e' && "wget '"@[3]
            == 't' && "wget '"@[4] == ' ' && "wget '"@[5] == '\'');
    }
}

/// An argument can only fail to translate with `ArgConversion`, and it
/// carries the argument itself.
proof fn lemma_convert_arg_err_shape(a: Seq<char>)
    ensures
        convert_arg_spec(a) is Err ==> convert_arg_spec(a) == Err::<Seq<char>, ErrorsView>(
            ErrorsView::ArgConversion(a),
        ),
{
}

/// One untranslatable argument fails the whole list with
/// `ArgConversion`.
proof fn lemma_translate_all_some_err(args: Seq<Seq<char>>, k: int)
    requires
        0 <= k < args.len(),
        convert_arg_spec(args[k]) is Err,
    ensures
        translate_all(args) is Err,
        translate_all(args) matches Err(e) ==> e is ArgConversion,
    decreases k,
{
    assert(forall|m: int|
        0 <= m < args.drop_first().len() ==> #[trigger] args.drop_first()[m] == args[m + 1]);
    if convert_arg_spec(args[0]) is Err {
        lemma_convert_arg_err_shape(args[0]);
    } else {
        assert(k > 0);
        lemma_translate_all_some_err(args.drop_first(), k - 1);
    }
}

/// Law: an argument whose leading flag token is dash-prefixed but has
/// no entry in the translation table fails with `ArgConversion`
/// carrying the whole argument.
pub proof fn lemma_unknown_flag_arg(arg: Seq<char>)
    requires
        arg.len() > 0,
        arg[0] == '-',
        rule_for(first_word(arg)) is None,
    ensures
        convert_arg_spec(arg) == Err::<Seq<char>, ErrorsView>(ErrorsView::ArgConversion(arg)),
{
    assert(!is_prefix("<url>"@, arg)) by {
        reveal_strlit("<url>");
    }
    assert(!is_prefix("'http"@, arg)) by {
        reveal_strlit("'http");
    }
}

/// Law: when a command tokenizes but holds an argument with no table
/// entry, the whole conversion fails with `ArgConversion`: no output is
/// produced for any of the arguments.
pub proof fn lemma_unsupported_flag_fails(fragments: Seq<Seq<char>>, args: Seq<Seq<char>>, k: int)
    requires
        tokenize_words(split_words(join_words(fragments))) == Ok::<Seq<Seq<char>>, ErrorsView>(
            args,
        ),
        0 <= k < args.len(),
        args[k].len() > 0,
        args[k][0] == '-',
        rule_for(first_word(args[k])) is None,
    ensures
        convert_spec(fragments) matches Err(e) && e is ArgConversion,
{
    lemma_unknown_flag_arg(args[k]);
    lemma_translate_all_some_err(args, k);
}

} // verus!

