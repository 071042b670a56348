//! Laws of the command-line parser: what it gives back for lines built from
//! words, and what holds of every successful parse.

use vstd::prelude::*;
use crate::parser::{Scan, is_quote, parse_spec, scan_from, scan_start, tokens_of, unescape};
use crate::text::{is_white_space, trim, trim_end, trim_start};

verus! {

/// A word that can stand unquoted in a command line: non-empty, with no
/// whitespace and no quote character.
pub open spec fn is_plain_word(w: Seq<char>) -> bool {
    &&& w.len() > 0
    &&& forall|k: int| 0 <= k < w.len() ==> !is_white_space(#[trigger] w[k]) && !is_quote(w[k])
}

/// A word that can stand between the quote characters `q` as it is:
/// non-empty, with no `q` and no backslash.
pub open spec fn is_quotable(w: Seq<char>, q: char) -> bool {
    &&& w.len() > 0
    &&& forall|k: int| 0 <= k < w.len() ==> #[trigger] w[k] != q && w[k] != '\\'
}

/// How `w` is written between the quote characters `q`: each backslash as
/// `\\` and each `q` as `\q`, every other character as it is.
pub open spec fn escaped(w: Seq<char>, q: char) -> Seq<char>
    decreases w.len(),
{
    if w.len() == 0 {
        Seq::<char>::empty()
    } else {
        (if w[0] == '\\' || w[0] == q { seq!['\\', w[0]] } else { seq![w[0]] }) + escaped(w.drop_first(), q)
    }
}

/// `w` written between the quote characters `q`, escaped.
pub open spec fn quoted(w: Seq<char>, q: char) -> Seq<char> {
    seq![q] + escaped(w, q) + seq![q]
}

/// How a word is written in a command line: as it is when it is plain,
/// otherwise quoted with `q`.
pub open spec fn render(w: Seq<char>, q: char) -> Seq<char> {
    if is_plain_word(w) {
        w
    } else {
        quoted(w, q)
    }
}

/// The arguments written after the command name, each after one space,
/// quoted with `q` where they need quotes.
pub open spec fn render_args(args: Seq<Seq<char>>, q: char) -> Seq<char>
    decreases args.len(),
{
    if args.len() == 0 {
        Seq::<char>::empty()
    } else {
        seq![' '] + render(args[0], q) + render_args(args.drop_first(), q)
    }
}

/// The command line that invokes `name` with `args`, quoting with `q`.
pub open spec fn command_line(name: Seq<char>, args: Seq<Seq<char>>, q: char) -> Seq<char> {
    name + render_args(args, q)
}

/// `s` holds `seg` at position `p`.
pub open spec fn holds_at(s: Seq<char>, p: int, seg: Seq<char>) -> bool {
    &&& 0 <= p
    &&& p + seg.len() <= s.len()
    &&& forall|k: int| 0 <= k < seg.len() ==> s[p + k] == #[trigger] seg[k]
}

/// The tokens of a scan state once the token being built is closed.
pub open spec fn flushed(st: Scan) -> Seq<Seq<char>> {
    if st.current.len() > 0 {
        st.tokens.push(st.current)
    } else {
        st.tokens
    }
}

/// Outside quotes, a run of characters that are neither whitespace nor quotes
/// extends the current token.
proof fn lemma_scan_plain(s: Seq<char>, p: int, w: Seq<char>, st: Scan)
    requires
        holds_at(s, p, w),
        !st.in_quotes,
        forall|k: int| 0 <= k < w.len() ==> !is_white_space(#[trigger] w[k]) && !is_quote(w[k]),
    ensures
        scan_from(s, p, st) == scan_from(s, p + w.len(), Scan { current: st.current + w, ..st }),
    decreases w.len(),
{
    if w.len() == 0 {
        assert(st.current + w =~= st.current);
    } else {
        let c = s[p];
        assert(c == w[0]);
        let st1 = Scan { current: st.current.push(c), ..st };
        assert(scan_from(s, p, st) == scan_from(s, p + 1, st1));
        let rest = w.drop_first();
        assert forall|k: int| 0 <= k < rest.len() implies s[p + 1 + k] == #[trigger] rest[k] by {
            assert(rest[k] == w[k + 1]);
        }
        assert forall|k: int| 0 <= k < rest.len() implies !is_white_space(#[trigger] rest[k]) && !is_quote(rest[k]) by {
            assert(rest[k] == w[k + 1]);
        }
        lemma_scan_plain(s, p + 1, rest, st1);
        assert(st1.current + rest =~= st.current + w);
    }
}

/// Inside quotes, a run of characters that are neither the opening quote
/// character nor backslashes extends the current token.
proof fn lemma_scan_quoted(s: Seq<char>, p: int, w: Seq<char>, st: Scan)
    requires
        holds_at(s, p, w),
        st.in_quotes,
        forall|k: int| 0 <= k < w.len() ==> #[trigger] w[k] != st.quote && w[k] != '\\',
    ensures
        scan_from(s, p, st) == scan_from(s, p + w.len(), Scan { current: st.current + w, ..st }),
    decreases w.len(),
{
    if w.len() == 0 {
        assert(st.current + w =~= st.current);
    } else {
        let c = s[p];
        assert(c == w[0]);
        let st1 = Scan { current: st.current.push(c), ..st };
        assert(scan_from(s, p, st) == scan_from(s, p + 1, st1));
        let rest = w.drop_first();
        assert forall|k: int| 0 <= k < rest.len() implies s[p + 1 + k] == #[trigger] rest[k] by {
            assert(rest[k] == w[k + 1]);
        }
        assert forall|k: int| 0 <= k < rest.len() implies #[trigger] rest[k] != st1.quote && rest[k] != '\\' by {
            assert(rest[k] == w[k + 1]);
        }
        lemma_scan_quoted(s, p + 1, rest, st1);
        assert(st1.current + rest =~= st.current + w);
    }
}

/// Inside quotes opened by `st.quote`, scanning `w` written escaped extends
/// the current token by `w` itself, whichever quote character that is.
proof fn lemma_scan_escaped(s: Seq<char>, p: int, w: Seq<char>, st: Scan)
    requires
        st.in_quotes,
        is_quote(st.quote),
        holds_at(s, p, escaped(w, st.quote)),
    ensures
        scan_from(s, p, st) == scan_from(s, p + escaped(w, st.quote).len(), Scan { current: st.current + w, ..st }),
    decreases w.len(),
{
    let q = st.quote;
    let e = escaped(w, q);
    if w.len() == 0 {
        assert(st.current + w =~= st.current);
    } else {
        let c = w[0];
        let rest = w.drop_first();
        let re = escaped(rest, q);
        let head = if c == '\\' || c == q { seq!['\\', c] } else { seq![c] };
        assert(e == head + re);
        let st1 = Scan { current: st.current.push(c), ..st };
        assert forall|k: int| 0 <= k < re.len() implies s[p + head.len() + k] == #[trigger] re[k] by {
            assert(e[head.len() + k] == re[k]);
        }
        if c == '\\' || c == q {
            assert(s[p] == e[0]);
            assert(s[p + 1] == e[1]);
            assert(unescape(c) == seq![c]);
            assert(st.current + unescape(c) =~= st.current.push(c));
            assert(scan_from(s, p, st) == scan_from(s, p + 2, st1));
        } else {
            assert(s[p] == e[0]);
            assert(scan_from(s, p, st) == scan_from(s, p + 1, st1));
        }
        lemma_scan_escaped(s, p + head.len(), rest, st1);
        assert(st1.current + rest =~= st.current + w);
    }
}

/// Scanning a word quoted with `q` from outside quotes gives the word itself
/// as the current token, and leaves the quotes closed.
proof fn lemma_scan_quoted_word(s: Seq<char>, p: int, w: Seq<char>, q: char, st: Scan)
    requires
        is_quote(q),
        !st.in_quotes,
        holds_at(s, p, quoted(w, q)),
    ensures
        scan_from(s, p, st) == scan_from(
            s,
            p + quoted(w, q).len(),
            Scan { current: st.current + w, in_quotes: false, quote: '\0', ..st },
        ),
{
    let e = escaped(w, q);
    let r = quoted(w, q);
    assert(s[p] == r[0]);
    let sq = Scan { in_quotes: true, quote: q, ..st };
    assert(scan_from(s, p, st) == scan_from(s, p + 1, sq));
    assert forall|k: int| 0 <= k < e.len() implies s[p + 1 + k] == #[trigger] e[k] by {
        assert(r[1 + k] == e[k]);
    }
    lemma_scan_escaped(s, p + 1, w, sq);
    let sq2 = Scan { current: sq.current + w, ..sq };
    assert(s[p + 1 + e.len()] == r[1 + e.len() as int]);
    assert(scan_from(s, p + 1 + e.len(), sq2) == scan_from(
        s,
        p + 2 + e.len(),
        Scan { in_quotes: false, quote: '\0', ..sq2 },
    ));
    assert(Scan { in_quotes: false, quote: '\0', ..sq2 } == Scan { current: st.current + w, in_quotes: false, quote: '\0', ..st });
}

/// Scanning the rendered arguments after a non-empty current token closes
/// that token and yields each argument as one token.
proof fn lemma_scan_args(s: Seq<char>, p: int, args: Seq<Seq<char>>, q: char, st: Scan)
    requires
        is_quote(q),
        holds_at(s, p, render_args(args, q)),
        p + render_args(args, q).len() == s.len(),
        st.current.len() > 0,
        !st.in_quotes,
        forall|i: int| 0 <= i < args.len() ==> #[trigger] args[i].len() > 0,
    ensures
        !scan_from(s, p, st).in_quotes,
        flushed(scan_from(s, p, st)) == st.tokens.push(st.current) + args,
    decreases args.len(),
{
    if args.len() == 0 {
        assert(st.tokens.push(st.current) + args =~= st.tokens.push(st.current));
    } else {
        let a = args[0];
        let r = render(a, q);
        let tail = args.drop_first();
        let rr = render_args(tail, q);
        let whole = render_args(args, q);
        assert(whole == seq![' '] + r + rr);
        assert(s[p] == whole[0]);
        assert(s[p] == ' ');
        let st1 = Scan { tokens: st.tokens.push(st.current), current: Seq::<char>::empty(), ..st };
        assert(scan_from(s, p, st) == scan_from(s, p + 1, st1));
        assert forall|k: int| 0 <= k < r.len() implies s[p + 1 + k] == #[trigger] r[k] by {
            assert(whole[1 + k] == r[k]);
        }
        let p2 = p + 1 + r.len();
        assert forall|k: int| 0 <= k < rr.len() implies s[p2 + k] == #[trigger] rr[k] by {
            assert(whole[1 + r.len() + k] == rr[k]);
        }
        let st2 = Scan { tokens: st.tokens.push(st.current), current: a, ..st1 };
        if is_plain_word(a) {
            lemma_scan_plain(s, p + 1, a, st1);
            assert(st1.current + a =~= a);
            assert(scan_from(s, p, st) == scan_from(s, p2, st2));
            assert forall|i: int| 0 <= i < tail.len() implies #[trigger] tail[i].len() > 0 by {
                assert(tail[i] == args[i + 1]);
            }
            lemma_scan_args(s, p2, tail, q, st2);
            assert(st2.tokens.push(st2.current) + tail =~= st.tokens.push(st.current) + args);
        } else {
            lemma_scan_quoted_word(s, p + 1, a, q, st1);
            let st3 = Scan { current: st1.current + a, in_quotes: false, quote: '\0', ..st1 };
            assert(st1.current + a =~= a);
            assert forall|i: int| 0 <= i < tail.len() implies #[trigger] tail[i].len() > 0 by {
                assert(tail[i] == args[i + 1]);
            }
            lemma_scan_args(s, p2, tail, q, st3);
            assert(st3.tokens.push(st3.current) + tail =~= st.tokens.push(st.current) + args);
        }
    }
}

/// A line that starts and ends with non-whitespace is its own trimmed form.
proof fn lemma_trim_noop(s: Seq<char>)
    requires
        s.len() > 0,
        !is_white_space(s[0]),
        !is_white_space(s.last()),
    ensures
        trim(s) == s,
{
    assert(trim_start(s) == s);
    assert(trim_end(s) == s);
}

/// The rendered arguments, when there are any, end with a non-whitespace character.
proof fn lemma_render_args_last(args: Seq<Seq<char>>, q: char)
    requires
        is_quote(q),
        args.len() > 0,
        forall|i: int| 0 <= i < args.len() ==> #[trigger] args[i].len() > 0,
    ensures
        render_args(args, q).len() > 0,
        !is_white_space(render_args(args, q).last()),
    decreases args.len(),
{
    let a = args[0];
    let tail = args.drop_first();
    let r = render(a, q);
    assert(a.len() > 0);
    assert(r.len() > 0 && !is_white_space(r.last())) by {
        if is_plain_word(a) {
            assert(r.last() == a[a.len() - 1]);
        } else {
            assert(r.last() == q);
        }
    }
    if tail.len() == 0 {
        assert(render_args(tail, q) =~= Seq::<char>::empty());
        assert(render_args(args, q) =~= seq![' '] + r);
    } else {
        assert forall|i: int| 0 <= i < tail.len() implies #[trigger] tail[i].len() > 0 by {
            assert(tail[i] == args[i + 1]);
        }
        lemma_render_args_last(tail, q);
        assert(render_args(args, q).last() == render_args(tail, q).last());
    }
}

/// A command line written from a plain command name and any non-empty
/// arguments parses back into that name and those arguments: words separated
/// by single spaces are the tokens, and a word written between single or
/// double quotes, with its backslashes and quote characters escaped, is a
/// single argument equal to the word, whichever quote character is used.
pub proof fn lemma_parse_command_line(name: Seq<char>, args: Seq<Seq<char>>, q: char)
    requires
        is_quote(q),
        is_plain_word(name),
        forall|i: int| 0 <= i < args.len() ==> #[trigger] args[i].len() > 0,
    ensures
        parse_spec(command_line(name, args, q)) == Ok::<(Seq<char>, Seq<Seq<char>>), Seq<char>>((name, args)),
{
    let s = command_line(name, args, q);
    let ra = render_args(args, q);
    assert(s[0] == name[0]);
    if args.len() == 0 {
        assert(ra =~= Seq::<char>::empty());
        assert(s =~= name);
        assert(s.last() == name[name.len() - 1]);
    } else {
        lemma_render_args_last(args, q);
        assert(s.last() == ra.last());
    }
    lemma_trim_noop(s);
    assert forall|k: int| 0 <= k < name.len() implies s[0 + k] == #[trigger] name[k] by {
    }
    lemma_scan_plain(s, 0, name, scan_start());
    let st = Scan { current: scan_start().current + name, ..scan_start() };
    assert(scan_start().current + name =~= name);
    assert forall|k: int| 0 <= k < ra.len() implies s[name.len() + k] == #[trigger] ra[k] by {
    }
    lemma_scan_args(s, name.len() as int, args, q, st);
    let tokens = seq![name] + args;
    assert(st.tokens.push(st.current) + args =~= tokens);
    assert(tokens_of(s) == Ok::<Seq<Seq<char>>, char>(tokens));
    assert(tokens[0] == name);
    assert(tokens.drop_first() =~= args);
}

/// A word with neither `q` nor a backslash is written between `q` as it is.
pub proof fn lemma_escaped_quotable(w: Seq<char>, q: char)
    requires
        forall|k: int| 0 <= k < w.len() ==> #[trigger] w[k] != q && w[k] != '\\',
    ensures
        escaped(w, q) == w,
    decreases w.len(),
{
    if w.len() > 0 {
        let rest = w.drop_first();
        assert forall|k: int| 0 <= k < rest.len() implies #[trigger] rest[k] != q && rest[k] != '\\' by {
            assert(rest[k] == w[k + 1]);
        }
        lemma_escaped_quotable(rest, q);
        assert(w[0] != q && w[0] != '\\');
        assert(seq![w[0]] + rest =~= w);
    }
}

/// A command name followed by one space and any non-empty word quoted with
/// `"` or `'` (backslashes and that quote character escaped) parses into the
/// name and that word as the only argument. Escapes work alike inside both
/// kinds of quotes.
pub proof fn lemma_parse_quoted_argument(name: Seq<char>, w: Seq<char>, q: char)
    requires
        is_quote(q),
        is_plain_word(name),
        w.len() > 0,
    ensures
        parse_spec(name + seq![' '] + quoted(w, q)) == Ok::<(Seq<char>, Seq<Seq<char>>), Seq<char>>((name, seq![w])),
{
    let r = quoted(w, q);
    let s = name + seq![' '] + r;
    assert(s[0] == name[0]);
    assert(s.last() == r.last());
    assert(r.last() == q);
    lemma_trim_noop(s);
    assert forall|k: int| 0 <= k < name.len() implies s[0 + k] == #[trigger] name[k] by {
    }
    lemma_scan_plain(s, 0, name, scan_start());
    let st = Scan { current: scan_start().current + name, ..scan_start() };
    assert(scan_start().current + name =~= name);
    assert(s[name.len() as int] == ' ');
    let st1 = Scan { tokens: seq![name], current: Seq::<char>::empty(), ..st };
    assert(st.tokens.push(st.current) =~= seq![name]);
    assert(scan_from(s, name.len() as int, st) == scan_from(s, name.len() + 1int, st1));
    assert forall|k: int| 0 <= k < r.len() implies s[name.len() + 1 + k] == #[trigger] r[k] by {
    }
    lemma_scan_quoted_word(s, name.len() + 1int, w, q, st1);
    let st2 = Scan { current: st1.current + w, in_quotes: false, quote: '\0', ..st1 };
    assert(st1.current + w =~= w);
    assert(scan_from(s, s.len() as int, st2) == st2);
    let tokens = seq![name, w];
    assert(st2.tokens.push(st2.current) =~= tokens);
    assert(tokens_of(s) == Ok::<Seq<Seq<char>>, char>(tokens));
    assert(tokens.drop_first() =~= seq![w]);
}

/// Every character of `w` is whitespace.
pub open spec fn all_white_space(w: Seq<char>) -> bool {
    forall|k: int| 0 <= k < w.len() ==> is_white_space(#[trigger] w[k])
}

proof fn lemma_trim_start_skips_white_space(w: Seq<char>, x: Seq<char>)
    requires
        all_white_space(w),
    ensures
        trim_start(w + x) == trim_start(x),
    decreases w.len(),
{
    if w.len() > 0 {
        assert((w + x)[0] == w[0]);
        assert((w + x).drop_first() =~= w.drop_first() + x);
        assert forall|k: int| 0 <= k < w.drop_first().len() implies is_white_space(#[trigger] w.drop_first()[k]) by {
            assert(w.drop_first()[k] == w[k + 1]);
        }
        lemma_trim_start_skips_white_space(w.drop_first(), x);
    } else {
        assert(w + x =~= x);
    }
}

proof fn lemma_trim_end_skips_white_space(x: Seq<char>, w: Seq<char>)
    requires
        all_white_space(w),
    ensures
        trim_end(x + w) == trim_end(x),
    decreases w.len(),
{
    if w.len() > 0 {
        assert((x + w).last() == w.last());
        assert((x + w).drop_last() =~= x + w.drop_last());
        assert forall|k: int| 0 <= k < w.drop_last().len() implies is_white_space(#[trigger] w.drop_last()[k]) by {
            assert(w.drop_last()[k] == w[k]);
        }
        lemma_trim_end_skips_white_space(x, w.drop_last());
    } else {
        assert(x + w =~= x);
    }
}

proof fn lemma_trim_start_append(x: Seq<char>, y: Seq<char>)
    ensures
        trim_start(x).len() > 0 ==> trim_start(x + y) == trim_start(x) + y,
        trim_start(x).len() == 0 ==> trim_start(x + y) == trim_start(y),
    decreases x.len(),
{
    if x.len() == 0 {
        assert(x + y =~= y);
    } else {
        assert((x + y)[0] == x[0]);
        if is_white_space(x[0]) {
            assert((x + y).drop_first() =~= x.drop_first() + y);
            lemma_trim_start_append(x.drop_first(), y);
        }
    }
}

/// Whitespace before and after a command line does not change how it parses.
pub proof fn lemma_parse_ignores_surrounding_white_space(pre: Seq<char>, s: Seq<char>, post: Seq<char>)
    requires
        all_white_space(pre),
        all_white_space(post),
    ensures
        parse_spec(pre + s + post) == parse_spec(s),
{
    assert(pre + s + post =~= pre + (s + post));
    lemma_trim_start_skips_white_space(pre, s + post);
    lemma_trim_start_append(s, post);
    if trim_start(s).len() > 0 {
        lemma_trim_end_skips_white_space(trim_start(s), post);
    } else {
        lemma_trim_start_skips_white_space(post, Seq::<char>::empty());
        assert(post + Seq::<char>::empty() =~= post);
        assert(trim(pre + s + post) =~= trim(s));
    }
    assert(trim(pre + s + post) == trim(s));
}

/// A successful parse gives a non-empty command name and non-empty arguments.
pub proof fn lemma_parse_gives_non_empty_tokens(input: Seq<char>)
    ensures
        parse_spec(input) matches Ok((name, args)) ==> name.len() > 0 && forall|i: int|
            0 <= i < args.len() ==> (#[trigger] args[i]).len() > 0,
{
    let t = trim(input);
    let st = scan_from(t, 0, scan_start());
    lemma_scan_keeps_tokens_non_empty(t, 0, scan_start());
    if !st.in_quotes {
        let tokens = flushed(st);
        assert forall|k: int| 0 <= k < tokens.len() implies (#[trigger] tokens[k]).len() > 0 by {
            if k < st.tokens.len() {
                assert(tokens[k] == st.tokens[k]);
            }
        }
        assert(tokens_of(t) == Ok::<Seq<Seq<char>>, char>(tokens));
        if tokens.len() > 0 {
            assert forall|i: int| 0 <= i < tokens.drop_first().len() implies (#[trigger] tokens.drop_first()[i]).len() > 0 by {
                assert(tokens.drop_first()[i] == tokens[i + 1]);
            }
        }
    }
}

/// One step of the scanner at position `i` of `s` (for `0 <= i < s.len()`):
/// the next position and the state there.
pub open spec fn scan_step(s: Seq<char>, i: int, st: Scan) -> (int, Scan) {
    let c = s[i];
    if is_quote(c) && !st.in_quotes {
        (i + 1, Scan { in_quotes: true, quote: c, ..st })
    } else if is_quote(c) && st.in_quotes && c == st.quote {
        (i + 1, Scan { in_quotes: false, quote: '\0', ..st })
    } else if c == '\\' && st.in_quotes {
        if i + 1 < s.len() {
            (i + 2, Scan { current: st.current + unescape(s[i + 1]), ..st })
        } else {
            (i + 1, st)
        }
    } else if is_white_space(c) && !st.in_quotes {
        if st.current.len() > 0 {
            (i + 1, Scan { tokens: st.tokens.push(st.current), current: seq![], ..st })
        } else {
            (i + 1, st)
        }
    } else {
        (i + 1, Scan { current: st.current.push(c), ..st })
    }
}

proof fn lemma_scan_step(s: Seq<char>, i: int, st: Scan)
    requires
        0 <= i < s.len(),
    ensures
        i < scan_step(s, i, st).0 <= s.len(),
        scan_from(s, i, st) == scan_from(s, scan_step(s, i, st).0, scan_step(s, i, st).1),
{
}

proof fn lemma_scan_keeps_tokens_non_empty(s: Seq<char>, i: int, st: Scan)
    requires
        forall|k: int| 0 <= k < st.tokens.len() ==> (#[trigger] st.tokens[k]).len() > 0,
    ensures
        forall|k: int| 0 <= k < scan_from(s, i, st).tokens.len() ==> (#[trigger] scan_from(s, i, st).tokens[k]).len() > 0,
    decreases s.len() - i,
{
    if 0 <= i < s.len() {
        lemma_scan_step(s, i, st);
        let (j, next) = scan_step(s, i, st);
        assert forall|k: int| 0 <= k < next.tokens.len() implies (#[trigger] next.tokens[k]).len() > 0 by {
            if k < st.tokens.len() {
                assert(next.tokens[k] == st.tokens[k]);
            }
        }
        lemma_scan_keeps_tokens_non_empty(s, j, next);
    }
}

/// Scanning `a + c` up to the end of `a` goes as scanning `a` alone, when the
/// scan of `a` does not end inside quotes.
proof fn lemma_scan_prefix(a: Seq<char>, c: Seq<char>, i: int, st: Scan)
    requires
        0 <= i <= a.len(),
        !scan_from(a, i, st).in_quotes,
    ensures
        scan_from(a + c, i, st) == scan_from(a + c, a.len() as int, scan_from(a, i, st)),
    decreases a.len() - i,
{
    let s = a + c;
    if i < a.len() {
        lemma_scan_step(a, i, st);
        lemma_scan_step(s, i, st);
        assert(s[i] == a[i]);
        if i + 1 < a.len() {
            assert(s[i + 1] == a[i + 1]);
        }
        let (j, st2) = scan_step(a, i, st);
        if a[i] == '\\' && st.in_quotes && i + 1 >= a.len() {
            // An escape at the very end of `a` leaves the scan inside quotes.
            assert(j == a.len());
            assert(scan_from(a, j, st2) == st2);
            assert(st2.in_quotes);
        } else {
            assert(scan_step(s, i, st) == scan_step(a, i, st));
            lemma_scan_prefix(a, c, j, st2);
        }
    } else {
        assert(scan_from(a, i, st) == st);
    }
}

/// Scanning `p + b` from a position inside `b` goes as scanning `b` alone.
proof fn lemma_scan_suffix(p: Seq<char>, b: Seq<char>, j: int, st: Scan)
    requires
        0 <= j <= b.len(),
    ensures
        scan_from(p + b, p.len() + j, st) == scan_from(b, j, st),
    decreases b.len() - j,
{
    let s = p + b;
    let i = p.len() + j;
    if j < b.len() {
        lemma_scan_step(b, j, st);
        lemma_scan_step(s, i, st);
        assert(s[i] == b[j]);
        if j + 1 < b.len() {
            assert(s[i + 1] == b[j + 1]);
        }
        let (k, st2) = scan_step(b, j, st);
        assert(scan_step(s, i, st) == (p.len() + k, st2));
        lemma_scan_suffix(p, b, k, st2);
    }
}

/// Tokens completed before a scan stay in front of the tokens it completes.
proof fn lemma_scan_tokens_prefix(b: Seq<char>, j: int, st: Scan, t: Seq<Seq<char>>)
    requires
        0 <= j <= b.len(),
    ensures
        scan_from(b, j, Scan { tokens: t + st.tokens, ..st })
            == (Scan { tokens: t + scan_from(b, j, st).tokens, ..scan_from(b, j, st) }),
    decreases b.len() - j,
{
    let st_t = Scan { tokens: t + st.tokens, ..st };
    if j < b.len() {
        lemma_scan_step(b, j, st);
        lemma_scan_step(b, j, st_t);
        let (k, st2) = scan_step(b, j, st);
        if is_white_space(b[j]) && !st.in_quotes && st.current.len() > 0 && !is_quote(b[j]) && !(b[j] == '\\' && st.in_quotes) {
            assert((t + st.tokens).push(st.current) =~= t + st.tokens.push(st.current));
        }
        assert(scan_step(b, j, st_t) == (k, Scan { tokens: t + st2.tokens, ..st2 }));
        lemma_scan_tokens_prefix(b, k, st2, t);
    } else {
        assert(scan_from(b, j, st_t) == st_t);
    }
}

/// Outside quotes the scanner's quote character is `'\0'`.
proof fn lemma_scan_quote_reset(s: Seq<char>, i: int, st: Scan)
    requires
        0 <= i <= s.len(),
        !st.in_quotes ==> st.quote == '\0',
    ensures
        !scan_from(s, i, st).in_quotes ==> scan_from(s, i, st).quote == '\0',
    decreases s.len() - i,
{
    if i < s.len() {
        lemma_scan_step(s, i, st);
        let (k, st2) = scan_step(s, i, st);
        lemma_scan_quote_reset(s, k, st2);
    }
}

/// Two lines joined by a whitespace character: when the first one tokenizes,
/// the tokens of the joined line are the first line's tokens followed by the
/// second line's, and when the second one leaves a quote open, so does the
/// joined line, with the same quote character.
pub proof fn lemma_tokens_of_join(a: Seq<char>, w: char, b: Seq<char>)
    requires
        is_white_space(w),
        tokens_of(a) is Ok,
    ensures
        tokens_of(a + seq![w] + b) == (match (tokens_of(a), tokens_of(b)) {
            (Ok(ta), Ok(tb)) => Ok::<Seq<Seq<char>>, char>(ta + tb),
            (_, Err(q)) => Err(q),
            (Err(q), _) => Err(q),
        }),
{
    let s = a + seq![w] + b;
    let c = seq![w] + b;
    assert(s =~= a + c);
    let sa = scan_from(a, 0, scan_start());
    lemma_scan_quote_reset(a, 0, scan_start());
    lemma_scan_prefix(a, c, 0, scan_start());
    assert(s[a.len() as int] == w);
    assert(!is_quote(w) && w != '\\') by {
        assert(is_white_space(w));
    }
    let st1 = Scan { tokens: flushed(sa), current: Seq::<char>::empty(), in_quotes: false, quote: '\0' };
    lemma_scan_step(s, a.len() as int, sa);
    assert(scan_step(s, a.len() as int, sa).1 =~= st1 || sa.current.len() == 0);
    assert(scan_from(s, a.len() as int, sa) == scan_from(s, a.len() + 1int, st1)) by {
        if sa.current.len() == 0 {
            assert(sa == st1) by {
                assert(sa.current =~= Seq::<char>::empty());
            }
        }
    }
    let p = a + seq![w];
    assert(s =~= p + b);
    lemma_scan_suffix(p, b, 0, st1);
    assert(p.len() + 0 == a.len() + 1);
    assert(scan_start().tokens + Seq::<Seq<char>>::empty() =~= scan_start().tokens);
    lemma_scan_tokens_prefix(b, 0, scan_start(), flushed(sa));
    assert(st1 == (Scan { tokens: flushed(sa) + scan_start().tokens, ..scan_start() })) by {
        assert(flushed(sa) + scan_start().tokens =~= flushed(sa));
    }
    let sb = scan_from(b, 0, scan_start());
    assert(scan_from(s, 0, scan_start()) == (Scan { tokens: flushed(sa) + sb.tokens, ..sb }));
    if !sb.in_quotes && sb.current.len() > 0 {
        assert((flushed(sa) + sb.tokens).push(sb.current) =~= flushed(sa) + sb.tokens.push(sb.current));
    }
}

/// The length of the run of non-whitespace characters at the start of `s`.
pub open spec fn word_len(s: Seq<char>) -> nat
    decreases s.len(),
{
    if s.len() == 0 || is_white_space(s[0]) {
        0
    } else {
        1 + word_len(s.drop_first())
    }
}

/// The run of non-whitespace characters at the start of `s` lies within `s`,
/// holds no whitespace, ends at whitespace or at the end of `s`, and is not
/// empty when `s` starts with a non-whitespace character.
pub proof fn lemma_word_len(s: Seq<char>)
    ensures
        word_len(s) <= s.len(),
        forall|j: int| 0 <= j < word_len(s) ==> !is_white_space(#[trigger] s[j]),
        word_len(s) < s.len() ==> is_white_space(s[word_len(s) as int]),
        s.len() > 0 && !is_white_space(s[0]) ==> word_len(s) > 0,
    decreases s.len(),
{
    if s.len() > 0 && !is_white_space(s[0]) {
        let t = s.drop_first();
        lemma_word_len(t);
        assert forall|j: int| 0 <= j < word_len(s) implies !is_white_space(#[trigger] s[j]) by {
            if j > 0 {
                assert(s[j] == t[j - 1]);
            }
        }
        if word_len(s) < s.len() {
            assert(s[word_len(s) as int] == t[word_len(t) as int]);
        }
    }
}

/// The maximal runs of non-whitespace characters of `s`, in order: the words
/// that `str::split_whitespace` gives.
pub open spec fn split_white_space(s: Seq<char>) -> Seq<Seq<char>>
    decreases s.len(),
{
    if s.len() == 0 {
        Seq::<Seq<char>>::empty()
    } else if is_white_space(s[0]) {
        split_white_space(s.drop_first())
    } else {
        proof {
            lemma_word_len(s);
        }
        seq![s.take(word_len(s) as int)] + split_white_space(s.skip(word_len(s) as int))
    }
}

/// `s` holds no quote character.
pub open spec fn has_no_quotes(s: Seq<char>) -> bool {
    forall|k: int| 0 <= k < s.len() ==> !is_quote(#[trigger] s[k])
}

/// A non-empty word of characters that are neither whitespace nor quotes is
/// one token.
proof fn lemma_tokens_of_word(w: Seq<char>)
    requires
        w.len() > 0,
        forall|k: int| 0 <= k < w.len() ==> !is_white_space(#[trigger] w[k]) && !is_quote(w[k]),
    ensures
        tokens_of(w) == Ok::<Seq<Seq<char>>, char>(seq![w]),
{
    assert forall|k: int| 0 <= k < w.len() implies w[0 + k] == #[trigger] w[k] by {
    }
    lemma_scan_plain(w, 0, w, scan_start());
    assert(scan_start().current + w =~= w);
    assert(scan_start().tokens.push(w) =~= seq![w]);
}

/// A line without quote characters splits exactly at its runs of whitespace:
/// its tokens are its maximal runs of non-whitespace characters.
pub proof fn lemma_tokens_without_quotes(s: Seq<char>)
    requires
        has_no_quotes(s),
    ensures
        tokens_of(s) == Ok::<Seq<Seq<char>>, char>(split_white_space(s)),
    decreases s.len(),
{
    let empty = Seq::<char>::empty();
    assert(tokens_of(empty) == Ok::<Seq<Seq<char>>, char>(Seq::<Seq<char>>::empty()));
    if s.len() == 0 {
    } else if is_white_space(s[0]) {
        let rest = s.drop_first();
        assert(has_no_quotes(rest)) by {
            assert forall|k: int| 0 <= k < rest.len() implies !is_quote(#[trigger] rest[k]) by {
                assert(rest[k] == s[k + 1]);
            }
        }
        lemma_tokens_without_quotes(rest);
        lemma_tokens_of_join(empty, s[0], rest);
        assert(empty + seq![s[0]] + rest =~= s);
        assert(Seq::<Seq<char>>::empty() + split_white_space(rest) =~= split_white_space(rest));
        assert(split_white_space(s) == split_white_space(rest));
    } else {
        lemma_word_len(s);
        let k = word_len(s) as int;
        let w = s.take(k);
        assert forall|j: int| 0 <= j < w.len() implies !is_white_space(#[trigger] w[j]) && !is_quote(w[j]) by {
            assert(w[j] == s[j]);
        }
        lemma_tokens_of_word(w);
        if k == s.len() {
            assert(w =~= s);
            assert(s.skip(k) =~= empty);
            assert(seq![w] + Seq::<Seq<char>>::empty() =~= seq![w]);
            assert(split_white_space(s) == seq![w] + split_white_space(s.skip(k)));
            assert(split_white_space(s.skip(k)) == Seq::<Seq<char>>::empty());
            assert(split_white_space(s) =~= seq![w]);
        } else {
            let rest = s.skip(k + 1);
            assert(has_no_quotes(rest)) by {
                assert forall|j: int| 0 <= j < rest.len() implies !is_quote(#[trigger] rest[j]) by {
                    assert(rest[j] == s[j + k + 1]);
                }
            }
            lemma_tokens_without_quotes(rest);
            lemma_tokens_of_join(w, s[k], rest);
            assert(w + seq![s[k]] + rest =~= s);
            let tail = s.skip(k);
            assert(tail[0] == s[k]);
            assert(tail.drop_first() =~= rest);
            assert(split_white_space(tail) == split_white_space(rest));
            assert(split_white_space(s) == seq![w] + split_white_space(tail));
            assert(tokens_of(w + seq![s[k]] + rest) == Ok::<Seq<Seq<char>>, char>(seq![w] + split_white_space(rest)));
        }
    }
}

} // verus!
