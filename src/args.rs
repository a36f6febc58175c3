//! The argument lexer: splits a line into words under shell quoting rules.

use vstd::prelude::*;
use crate::text::{
    chars_of, is_space, is_whitespace, slice_chars, string_of, trim, trim_bounds, trim_end, trim_start,
};

verus! {

/// Where the lexer stands: outside quotes, inside single quotes or inside
/// double quotes.
#[derive(Clone, Copy, PartialEq, Eq, Structural)]
pub enum LexState {
    Plain,
    Single,
    Double,
}

/// The words of a vector of strings, as character sequences.
pub open spec fn words_of(v: Seq<String>) -> Seq<Seq<char>> {
    v.map_values(|s: String| s@)
}

/// One move of the lexer on a non-empty `s`: how many characters it reads
/// (one or two), the next state, the word being built and the words emitted.
pub open spec fn lex_step(s: Seq<char>, st: LexState, cur: Seq<char>, acc: Seq<Seq<char>>) -> (
    nat,
    LexState,
    Seq<char>,
    Seq<Seq<char>>,
) {
    let c = s[0];
    let more = s.len() > 1;
    match st {
        LexState::Plain => {
            if is_space(c) {
                if cur.len() > 0 {
                    (1, LexState::Plain, Seq::empty(), acc.push(cur))
                } else {
                    (1, LexState::Plain, cur, acc)
                }
            } else if c == '\'' {
                (1, LexState::Single, cur, acc)
            } else if c == '"' {
                (1, LexState::Double, cur, acc)
            } else if c == '\\' {
                if more {
                    (2, LexState::Plain, cur.push(s[1]), acc)
                } else {
                    (1, LexState::Plain, cur.push('\\'), acc)
                }
            } else {
                (1, LexState::Plain, cur.push(c), acc)
            }
        },
        LexState::Single => {
            if c == '\'' {
                if more && s[1] == '\'' {
                    (2, LexState::Single, cur, acc)
                } else {
                    (1, LexState::Plain, cur, acc)
                }
            } else {
                (1, LexState::Single, cur.push(c), acc)
            }
        },
        LexState::Double => {
            if c == '"' {
                (1, LexState::Plain, cur, acc)
            } else if c == '\\' {
                if !more {
                    (1, LexState::Double, cur.push('\\'), acc)
                } else if s[1] == '"' || s[1] == '\\' {
                    (2, LexState::Double, cur.push(s[1]), acc)
                } else {
                    (2, LexState::Double, cur.push('\\').push(s[1]), acc)
                }
            } else {
                (1, LexState::Double, cur.push(c), acc)
            }
        },
    }
}

/// The lexer as a state machine over the characters still to read: `cur` is
/// the word being built and `acc` the words already emitted. At the end of
/// the input a non-empty word is emitted, whatever the state.
pub open spec fn lex(s: Seq<char>, st: LexState, cur: Seq<char>, acc: Seq<Seq<char>>) -> Seq<
    Seq<char>,
>
    decreases s.len(),
{
    if s.len() == 0 {
        if cur.len() > 0 {
            acc.push(cur)
        } else {
            acc
        }
    } else {
        let (k, st2, cur2, acc2) = lex_step(s, st, cur, acc);
        lex(s.subrange(k as int, s.len() as int), st2, cur2, acc2)
    }
}

/// The words of a line: the lexer run on the line without its surrounding
/// white space.
pub open spec fn tokenize(s: Seq<char>) -> Seq<Seq<char>> {
    lex(trim(s), LexState::Plain, Seq::empty(), Seq::empty())
}

proof fn lemma_words_push(v: Seq<String>, s: String)
    ensures
        words_of(v.push(s)) == words_of(v).push(s@),
{
    assert(words_of(v.push(s)) =~= words_of(v).push(s@));
}

/// Runs the lexer over all of `t`.
pub fn lex_words(t: &Vec<char>) -> (r: Vec<String>)
    ensures
        words_of(r@) == lex(t@, LexState::Plain, Seq::empty(), Seq::empty()),
{
    let n = t.len();
    let mut args: Vec<String> = Vec::new();
    let mut cur: Vec<char> = Vec::new();
    let mut st = LexState::Plain;
    let mut i: usize = 0;
    assert(t@.subrange(0, n as int) =~= t@);
    assert(words_of(args@) =~= Seq::<Seq<char>>::empty());
    while i < n
        invariant
            n == t@.len(),
            i <= n,
            lex(t@.subrange(i as int, n as int), st, cur@, words_of(args@)) == lex(
                t@,
                LexState::Plain,
                Seq::empty(),
                Seq::empty(),
            ),
        decreases n - i,
    {
        let ghost sub = t@.subrange(i as int, n as int);
        let c = t[i];
        assert(sub[0] == c);
        assert(sub.subrange(1, sub.len() as int) =~= t@.subrange(i + 1, n as int));
        if i + 1 < n {
            assert(sub[1] == t@[i + 1]);
            assert(sub.subrange(2, sub.len() as int) =~= t@.subrange(i + 2, n as int));
        }
        match st {
            LexState::Plain => {
                if is_whitespace(c) {
                    if cur.len() > 0 {
                        let w = string_of(cur.as_slice());
                        proof {
                            lemma_words_push(args@, w);
                        }
                        args.push(w);
                        cur = Vec::new();
                        assert(cur@ =~= Seq::<char>::empty());
                    }
                    i = i + 1;
                } else if c == '\'' {
                    st = LexState::Single;
                    i = i + 1;
                } else if c == '"' {
                    st = LexState::Double;
                    i = i + 1;
                } else if c == '\\' {
                    if i + 1 < n {
                        cur.push(t[i + 1]);
                        i = i + 2;
                    } else {
                        cur.push('\\');
                        i = i + 1;
                    }
                } else {
                    cur.push(c);
                    i = i + 1;
                }
            },
            LexState::Single => {
                if c == '\'' {
                    if i + 1 < n && t[i + 1] == '\'' {
                        i = i + 2;
                    } else {
                        st = LexState::Plain;
                        i = i + 1;
                    }
                } else {
                    cur.push(c);
                    i = i + 1;
                }
            },
            LexState::Double => {
                if c == '"' {
                    st = LexState::Plain;
                    i = i + 1;
                } else if c == '\\' {
                    if i + 1 >= n {
                        cur.push('\\');
                        i = i + 1;
                    } else if t[i + 1] == '"' || t[i + 1] == '\\' {
                        cur.push(t[i + 1]);
                        i = i + 2;
                    } else {
                        cur.push('\\');
                        cur.push(t[i + 1]);
                        i = i + 2;
                    }
                } else {
                    cur.push(c);
                    i = i + 1;
                }
            },
        }
    }
    assert(t@.subrange(i as int, n as int).len() == 0);
    if cur.len() > 0 {
        let w = string_of(cur.as_slice());
        proof {
            lemma_words_push(args@, w);
        }
        args.push(w);
    }
    args
}

/// Splits `input` into words: surrounding white space is ignored, runs of
/// unquoted white space separate words, and quotes and escapes are consumed.
pub fn parse_args(input: &str) -> (r: Vec<String>)
    ensures
        words_of(r@) == tokenize(input@),
{
    tokenize_chars(&chars_of(input))
}

/// The words of a line given as characters.
pub fn tokenize_chars(cs: &Vec<char>) -> (r: Vec<String>)
    ensures
        words_of(r@) == tokenize(cs@),
{
    let (a, b) = trim_bounds(cs);
    let t = slice_chars(cs, a, b);
    lex_words(&t)
}

/// Every word in the sequence is non-empty.
pub open spec fn all_nonempty(ws: Seq<Seq<char>>) -> bool {
    forall|i: int| 0 <= i < ws.len() ==> #[trigger] ws[i].len() > 0
}

/// Every character of the sequence is white space.
pub open spec fn all_space(w: Seq<char>) -> bool {
    forall|i: int| 0 <= i < w.len() ==> is_space(#[trigger] w[i])
}

/// A word between single quotes.
pub open spec fn quote(t: Seq<char>) -> Seq<char> {
    seq!['\''] + t + seq!['\'']
}

/// The words, each between single quotes, joined by single spaces.
pub open spec fn join_quoted(ts: Seq<Seq<char>>) -> Seq<char>
    decreases ts.len(),
{
    if ts.len() == 0 {
        Seq::empty()
    } else if ts.len() == 1 {
        quote(ts[0])
    } else {
        quote(ts[0]) + seq![' '] + join_quoted(ts.drop_first())
    }
}

proof fn lemma_lex_nonempty(s: Seq<char>, st: LexState, cur: Seq<char>, acc: Seq<Seq<char>>)
    requires
        all_nonempty(acc),
    ensures
        all_nonempty(lex(s, st, cur, acc)),
    decreases s.len(),
{
    if s.len() > 0 {
        let (k, st2, cur2, acc2) = lex_step(s, st, cur, acc);
        assert(all_nonempty(acc2));
        lemma_lex_nonempty(s.subrange(k as int, s.len() as int), st2, cur2, acc2);
    }
}

/// The lexer never emits an empty word.
pub proof fn lemma_no_empty_words(s: Seq<char>)
    ensures
        all_nonempty(tokenize(s)),
{
    lemma_lex_nonempty(trim(s), LexState::Plain, Seq::empty(), Seq::empty());
}

proof fn lemma_trim_start_space_prefix(w: Seq<char>, x: Seq<char>)
    requires
        all_space(w),
    ensures
        trim_start(w + x) == trim_start(x),
    decreases w.len(),
{
    if w.len() > 0 {
        assert((w + x).drop_first() =~= w.drop_first() + x);
        lemma_trim_start_space_prefix(w.drop_first(), x);
    } else {
        assert(w + x =~= x);
    }
}

proof fn lemma_trim_end_space_suffix(x: Seq<char>, w: Seq<char>)
    requires
        all_space(w),
    ensures
        trim_end(x + w) == trim_end(x),
    decreases w.len(),
{
    if w.len() > 0 {
        assert((x + w).drop_last() =~= x + w.drop_last());
        lemma_trim_end_space_suffix(x, w.drop_last());
    } else {
        assert(x + w =~= x);
    }
}

proof fn lemma_trim_start_append(x: Seq<char>, y: Seq<char>)
    ensures
        trim_start(x).len() > 0 ==> trim_start(x + y) == trim_start(x) + y,
        trim_start(x).len() == 0 ==> trim_start(x + y) == trim_start(y),
    decreases x.len(),
{
    if x.len() == 0 {
        assert(x + y =~= y);
    } else if is_space(x[0]) {
        assert((x + y).drop_first() =~= x.drop_first() + y);
        lemma_trim_start_append(x.drop_first(), y);
    }
}

/// White space around a line does not change its words.
pub proof fn lemma_padding_ignored(w1: Seq<char>, s: Seq<char>, w2: Seq<char>)
    requires
        all_space(w1),
        all_space(w2),
    ensures
        tokenize(w1 + s + w2) == tokenize(s),
{
    assert(w1 + s + w2 =~= w1 + (s + w2));
    lemma_trim_start_space_prefix(w1, s + w2);
    lemma_trim_start_append(s, w2);
    if trim_start(s).len() > 0 {
        lemma_trim_end_space_suffix(trim_start(s), w2);
    } else {
        lemma_trim_start_space_prefix(w2, Seq::empty());
        assert(w2 + Seq::<char>::empty() =~= w2);
    }
}

proof fn lemma_trim_quoted(s: Seq<char>)
    requires
        s.len() > 0,
        !is_space(s[0]),
        !is_space(s.last()),
    ensures
        trim(s) == s,
{
}

proof fn lemma_single_body(t: Seq<char>, r: Seq<char>, cur: Seq<char>, acc: Seq<Seq<char>>)
    requires
        !t.contains('\''),
    ensures
        lex(t + r, LexState::Single, cur, acc) == lex(r, LexState::Single, cur + t, acc),
    decreases t.len(),
{
    if t.len() == 0 {
        assert(t + r =~= r);
        assert(cur + t =~= cur);
    } else {
        let s = t + r;
        assert(s[0] == t[0]);
        assert(!t.drop_first().contains('\'')) by {
            if t.drop_first().contains('\'') {
                let j = choose|j: int| 0 <= j < t.drop_first().len() && t.drop_first()[j] == '\'';
                assert(t[j + 1] == '\'');
            }
        }
        assert(t[0] != '\'') by {
            if t[0] == '\'' {
                assert(t.contains('\''));
            }
        }
        assert(s.subrange(1, s.len() as int) =~= t.drop_first() + r);
        lemma_single_body(t.drop_first(), r, cur.push(t[0]), acc);
        assert(cur.push(t[0]) + t.drop_first() =~= cur + t);
    }
}

/// Lexing a quoted word followed by `r` (empty, or starting with a space).
proof fn lemma_quoted_word(t: Seq<char>, r: Seq<char>, acc: Seq<Seq<char>>)
    requires
        t.len() > 0,
        !t.contains('\''),
        r.len() == 0 || r[0] == ' ',
    ensures
        lex(quote(t) + r, LexState::Plain, Seq::empty(), acc) == lex(
            r.subrange(if r.len() > 0 { 1int } else { 0int }, r.len() as int),
            LexState::Plain,
            Seq::empty(),
            acc.push(t),
        ),
{
    let s = quote(t) + r;
    let tail = t + (seq!['\''] + r);
    assert(s[0] == '\'');
    assert(s.subrange(1, s.len() as int) =~= tail);
    assert(lex(s, LexState::Plain, Seq::empty(), acc) == lex(tail, LexState::Single, Seq::empty(), acc));
    lemma_single_body(t, seq!['\''] + r, Seq::empty(), acc);
    assert(Seq::<char>::empty() + t =~= t);
    let q = seq!['\''] + r;
    assert(q[0] == '\'');
    assert(q.subrange(1, q.len() as int) =~= r);
    if r.len() > 0 {
        assert(q[1] == ' ');
        assert(lex(q, LexState::Single, t, acc) == lex(r, LexState::Plain, t, acc));
        assert(is_space(r[0]));
        assert(lex(r, LexState::Plain, t, acc) == lex(
            r.subrange(1, r.len() as int),
            LexState::Plain,
            Seq::empty(),
            acc.push(t),
        ));
    } else {
        assert(lex(q, LexState::Single, t, acc) == lex(r, LexState::Plain, t, acc));
        assert(r.subrange(0, 0) =~= r);
    }
}

/// A non-empty word without single quotes, put between single quotes, lexes
/// back to itself.
pub proof fn lemma_single_quoted_word(t: Seq<char>)
    requires
        t.len() > 0,
        !t.contains('\''),
    ensures
        tokenize(quote(t)) == seq![t],
{
    let s = quote(t);
    assert(s[0] == '\'');
    assert(s.last() == '\'');
    lemma_trim_quoted(s);
    lemma_quoted_word(t, Seq::empty(), Seq::empty());
    assert(s + Seq::<char>::empty() =~= s);
    assert(Seq::<Seq<char>>::empty().push(t) =~= seq![t]);
}

proof fn lemma_join_quoted_ends(ts: Seq<Seq<char>>)
    requires
        ts.len() > 0,
    ensures
        join_quoted(ts).len() > 0,
        join_quoted(ts)[0] == '\'',
        join_quoted(ts).last() == '\'',
    decreases ts.len(),
{
    if ts.len() > 1 {
        lemma_join_quoted_ends(ts.drop_first());
    }
}

proof fn lemma_lex_join_quoted(ts: Seq<Seq<char>>, acc: Seq<Seq<char>>)
    requires
        all_nonempty(ts),
        forall|i: int| 0 <= i < ts.len() ==> !(#[trigger] ts[i]).contains('\''),
    ensures
        lex(join_quoted(ts), LexState::Plain, Seq::empty(), acc) == acc + ts,
    decreases ts.len(),
{
    if ts.len() == 0 {
        assert(acc + ts =~= acc);
    } else if ts.len() == 1 {
        lemma_quoted_word(ts[0], Seq::empty(), acc);
        assert(quote(ts[0]) + Seq::<char>::empty() =~= quote(ts[0]));
        assert(acc.push(ts[0]) =~= acc + ts);
    } else {
        let rest = ts.drop_first();
        let r = seq![' '] + join_quoted(rest);
        assert(join_quoted(ts) =~= quote(ts[0]) + r);
        assert(ts[0].len() > 0);
        lemma_quoted_word(ts[0], r, acc);
        assert(r.subrange(1, r.len() as int) =~= join_quoted(rest));
        assert(all_nonempty(rest));
        lemma_lex_join_quoted(rest, acc.push(ts[0]));
        assert(acc.push(ts[0]) + rest =~= acc + ts);
    }
}

/// The words of any line, each put between single quotes and joined by single
/// spaces, lex back to the same words, so long as no word holds a single
/// quote (which single quotes cannot carry).
pub proof fn lemma_quoted_round_trip(s: Seq<char>)
    requires
        forall|i: int| 0 <= i < tokenize(s).len() ==> !(#[trigger] tokenize(s)[i]).contains('\''),
    ensures
        tokenize(join_quoted(tokenize(s))) == tokenize(s),
{
    let ts = tokenize(s);
    lemma_no_empty_words(s);
    let j = join_quoted(ts);
    if ts.len() > 0 {
        lemma_join_quoted_ends(ts);
        lemma_trim_quoted(j);
    }
    lemma_lex_join_quoted(ts, Seq::empty());
    assert(Seq::<Seq<char>>::empty() + ts =~= ts);
}

} // verus!
