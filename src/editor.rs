//! Completion of command names: the names known to the shell, held in a
//! trie, and the candidates for the word before the cursor.

use vstd::prelude::*;
use crate::args::words_of;
use crate::text::{chars_of, is_space, is_whitespace, slice_chars, string_of};

verus! {

/// The trie type of `trie_rs`, carried as an opaque value.
#[verifier::external_type_specification]
#[verifier::external_body]
#[verifier::reject_recursive_types(Label)]
pub struct ExTrie<Label>(trie_rs::Trie<Label>);

/// The words that a trie holds.
pub uninterp spec fn trie_keys(t: trie_rs::Trie<u8>) -> Set<Seq<char>>;

/// Relies on `trie_rs::Trie::from_iter`: the trie holds exactly the given
/// words. An empty word makes it panic, so none is admitted.
#[verifier::external_body]
fn trie_of(words: Vec<String>) -> (r: trie_rs::Trie<u8>)
    requires
        forall|i: int| 0 <= i < words@.len() ==> #[trigger] words@[i]@.len() > 0,
    ensures
        trie_keys(r) == words_of(words@).to_set(),
{
    trie_rs::Trie::from_iter(words)
}

/// Relies on `trie_rs::Trie::predictive_search`: every word of the trie that
/// starts with `prefix`, each once.
#[verifier::external_body]
fn keys_with_prefix(t: &trie_rs::Trie<u8>, prefix: &str) -> (r: Vec<String>)
    ensures
        words_of(r@).to_set() == trie_keys(*t).filter(|w: Seq<char>| prefix@.is_prefix_of(w)),
        words_of(r@).no_duplicates(),
{
    t.predictive_search(prefix).collect()
}

/// The builtins offered for completion.
pub open spec fn completion_builtins() -> Set<Seq<char>> {
    set!["exit"@, "echo"@, "type"@, "pwd"@, "cd"@]
}

/// The words offered for completion: the non-empty program names and the
/// builtins.
pub open spec fn completion_names(executables: Seq<Seq<char>>) -> Set<Seq<char>> {
    executables.to_set().filter(|w: Seq<char>| w.len() > 0) + completion_builtins()
}

proof fn lemma_push_to_set(s: Seq<Seq<char>>, x: Seq<char>)
    ensures
        s.push(x).to_set() == s.to_set().insert(x),
{
    assert(s.push(x) =~= s + seq![x]);
    Seq::lemma_to_set_insert_commutes(s, x);
}

/// Appends the word `w` to `words`.
fn push_word(words: &mut Vec<String>, w: &str)
    requires
        forall|j: int| 0 <= j < old(words)@.len() ==> #[trigger] old(words)@[j]@.len() > 0,
        w@.len() > 0,
    ensures
        forall|j: int| 0 <= j < final(words)@.len() ==> #[trigger] final(words)@[j]@.len() > 0,
        words_of(final(words)@).to_set() == words_of(old(words)@).to_set().insert(w@),
{
    let s = string_of(chars_of(w).as_slice());
    let ghost w0 = words@;
    words.push(s);
    assert(words_of(words@) =~= words_of(w0).push(w@));
    proof {
        lemma_push_to_set(words_of(w0), w@);
    }
}

/// The trie of the names offered for completion: the program names found on
/// the search path, and the builtins.
pub fn build_completion_trie(executables: Vec<String>) -> (r: trie_rs::Trie<u8>)
    ensures
        trie_keys(r) == completion_names(words_of(executables@)),
{
    let mut words: Vec<String> = Vec::new();
    let mut i: usize = 0;
    let ghost ex = words_of(executables@);
    assert(words_of(words@) =~= Seq::<Seq<char>>::empty());
    assert(ex.subrange(0, 0) =~= Seq::<Seq<char>>::empty());
    assert(words_of(words@).to_set() =~= ex.subrange(0, 0).to_set().filter(
        |w: Seq<char>| w.len() > 0,
    ));
    while i < executables.len()
        invariant
            ex == words_of(executables@),
            i <= executables@.len(),
            forall|j: int| 0 <= j < words@.len() ==> #[trigger] words@[j]@.len() > 0,
            words_of(words@).to_set() == ex.subrange(0, i as int).to_set().filter(
                |w: Seq<char>| w.len() > 0,
            ),
        decreases executables.len() - i,
    {
        let ghost pre = ex.subrange(0, i as int);
        let ghost x = ex[i as int];
        assert(ex.subrange(0, i + 1) =~= pre.push(x));
        proof {
            lemma_push_to_set(pre, x);
        }
        let name = executables[i].as_str();
        if chars_of(name).len() > 0 {
            push_word(&mut words, name);
            assert(words_of(words@).to_set() =~= ex.subrange(0, i + 1).to_set().filter(
                |w: Seq<char>| w.len() > 0,
            ));
        } else {
            assert(words_of(words@).to_set() =~= ex.subrange(0, i + 1).to_set().filter(
                |w: Seq<char>| w.len() > 0,
            ));
        }
        i = i + 1;
    }
    assert(ex.subrange(0, i as int) =~= ex);
    let ghost named = words_of(words@).to_set();
    proof {
        reveal_strlit("exit");
        reveal_strlit("echo");
        reveal_strlit("type");
        reveal_strlit("pwd");
        reveal_strlit("cd");
    }
    push_word(&mut words, "exit");
    push_word(&mut words, "echo");
    push_word(&mut words, "type");
    push_word(&mut words, "pwd");
    push_word(&mut words, "cd");
    assert(words_of(words@).to_set() =~= completion_names(ex));
    trie_of(words)
}

/// The word that ends `s`: what follows its last white space.
pub open spec fn last_word(s: Seq<char>) -> Seq<char>
    decreases s.len(),
{
    if s.len() == 0 || is_space(s.last()) {
        Seq::empty()
    } else {
        last_word(s.drop_last()).push(s.last())
    }
}

/// A completion offered to the line editor: the name shown, and the text
/// that replaces the word being completed (the name and a space).
#[derive(Clone, Debug)]
pub struct Candidate {
    pub display: String,
    pub replacement: String,
}

/// The names that the candidates show.
pub open spec fn displays_of(v: Seq<Candidate>) -> Seq<Seq<char>> {
    v.map_values(|c: Candidate| c.display@)
}

/// The word being completed: what follows the last white space in the text
/// before the cursor.
pub fn completion_word(before_cursor: &str) -> (r: String)
    ensures
        r@ == last_word(before_cursor@),
{
    let cs = chars_of(before_cursor);
    let n = cs.len();
    let mut start: usize = n;
    assert(cs@.subrange(n as int, n as int) =~= Seq::<char>::empty());
    assert(cs@.subrange(0, n as int) =~= cs@);
    while start > 0 && !is_whitespace(cs[start - 1])
        invariant
            start <= n == cs@.len(),
            cs@ == before_cursor@,
            last_word(cs@) == last_word(cs@.subrange(0, start as int)) + cs@.subrange(
                start as int,
                n as int,
            ),
        decreases start,
    {
        let ghost pre = cs@.subrange(0, start as int);
        assert(pre.drop_last() =~= cs@.subrange(0, start - 1));
        assert(last_word(pre) == last_word(cs@.subrange(0, start - 1)).push(cs@[start - 1]));
        assert(last_word(cs@.subrange(0, start - 1)).push(cs@[start - 1]) + cs@.subrange(
            start as int,
            n as int,
        ) =~= last_word(cs@.subrange(0, start - 1)) + cs@.subrange(start - 1, n as int));
        start = start - 1;
    }
    assert(last_word(cs@.subrange(0, start as int)) =~= Seq::<char>::empty());
    assert(Seq::<char>::empty() + cs@.subrange(start as int, n as int) =~= cs@.subrange(
        start as int,
        n as int,
    ));
    let w = slice_chars(&cs, start, n);
    string_of(w.as_slice())
}

/// The candidates for completing the word before the cursor: each word of
/// the trie that starts with it, once, followed by a space.
pub fn completion_candidates(trie: &trie_rs::Trie<u8>, before_cursor: &str) -> (r: Vec<Candidate>)
    ensures
        displays_of(r@).to_set() == trie_keys(*trie).filter(
            |w: Seq<char>| last_word(before_cursor@).is_prefix_of(w),
        ),
        displays_of(r@).no_duplicates(),
        forall|i: int|
            0 <= i < r@.len() ==> (#[trigger] r@[i]).replacement@ == r@[i].display@ + seq![' '],
{
    let word = completion_word(before_cursor);
    let found = keys_with_prefix(trie, word.as_str());
    let mut r: Vec<Candidate> = Vec::new();
    let mut i: usize = 0;
    while i < found.len()
        invariant
            i <= found@.len(),
            displays_of(r@) == words_of(found@).subrange(0, i as int),
            forall|j: int|
                0 <= j < r@.len() ==> (#[trigger] r@[j]).replacement@ == r@[j].display@ + seq![' '],
        decreases found.len() - i,
    {
        let mut v = chars_of(found[i].as_str());
        v.push(' ');
        let c = Candidate { display: found[i].clone(), replacement: string_of(v.as_slice()) };
        let ghost r0 = r@;
        assert(c.display@ == words_of(found@)[i as int]);
        r.push(c);
        assert(r@ == r0.push(c));
        assert(displays_of(r@) =~= displays_of(r0).push(c.display@));
        assert(displays_of(r0) == words_of(found@).subrange(0, i as int));
        assert(displays_of(r@) =~= words_of(found@).subrange(0, i + 1));
        i = i + 1;
    }
    assert(words_of(found@).subrange(0, i as int) =~= words_of(found@));
    r
}

} // verus!
