//! Slash-separated paths.
use vstd::prelude::*;
use vstd::string::StrSliceExecFns;
use crate::identifier::string_of_chars;

verus! {

/// The components finished so far, and the one under way, after reading `p`
/// from the left.
pub open spec fn split_acc(p: Seq<char>) -> (Seq<Seq<char>>, Seq<char>)
    decreases p.len(),
{
    if p.len() == 0 {
        (seq![], seq![])
    } else {
        let (done, cur) = split_acc(p.drop_last());
        if p.last() == '/' {
            if cur.len() > 0 {
                (done.push(cur), seq![])
            } else {
                (done, seq![])
            }
        } else {
            (done, cur.push(p.last()))
        }
    }
}

/// The components of a path split at `/`, empty ones dropped.
pub open spec fn components(p: Seq<char>) -> Seq<Seq<char>> {
    let (done, cur) = split_acc(p);
    if cur.len() > 0 {
        done.push(cur)
    } else {
        done
    }
}

/// The components joined by single slashes.
pub open spec fn join(cs: Seq<Seq<char>>) -> Seq<char>
    decreases cs.len(),
{
    if cs.len() == 0 {
        seq![]
    } else if cs.len() == 1 {
        cs[0]
    } else {
        join(cs.drop_last()) + seq!['/'] + cs.last()
    }
}

/// The path with runs of `/` collapsed and leading and trailing `/` removed.
pub open spec fn normalise(p: Seq<char>) -> Seq<char> {
    join(components(p))
}

/// A path component: not empty, and without a slash.
pub open spec fn is_word(w: Seq<char>) -> bool {
    w.len() > 0 && forall|i: int| 0 <= i < w.len() ==> w[i] != '/'
}

proof fn lemma_split_words(p: Seq<char>)
    ensures
        forall|i: int| 0 <= i < split_acc(p).0.len() ==> is_word(#[trigger] split_acc(p).0[i]),
        forall|i: int| 0 <= i < split_acc(p).1.len() ==> split_acc(p).1[i] != '/',
    decreases p.len(),
{
    if p.len() > 0 {
        lemma_split_words(p.drop_last());
        let (done, cur) = split_acc(p.drop_last());
        let (d2, c2) = split_acc(p);
        if p.last() == '/' {
            if cur.len() > 0 {
                assert(d2 == done.push(cur));
                assert forall|i: int| 0 <= i < d2.len() implies is_word(#[trigger] d2[i]) by {
                    if i < done.len() {
                        assert(d2[i] == done[i]);
                    } else {
                        assert(d2[i] == cur);
                    }
                }
            }
        } else {
            assert(c2 == cur.push(p.last()));
            assert forall|i: int| 0 <= i < c2.len() implies c2[i] != '/' by {
                if i < cur.len() {
                    assert(c2[i] == cur[i]);
                }
            }
        }
    }
}

proof fn lemma_word_alone(w: Seq<char>)
    requires
        forall|i: int| 0 <= i < w.len() ==> w[i] != '/',
    ensures
        split_acc(w) == (Seq::<Seq<char>>::empty(), w),
    decreases w.len(),
{
    if w.len() > 0 {
        lemma_word_alone(w.drop_last());
        assert(w.drop_last().push(w.last()) =~= w);
    }
}

proof fn lemma_word_after(a: Seq<char>, w: Seq<char>)
    requires
        forall|i: int| 0 <= i < w.len() ==> w[i] != '/',
    ensures
        split_acc(a + seq!['/'] + w) == (components(a), w),
    decreases w.len(),
{
    let x = a + seq!['/'] + w;
    if w.len() == 0 {
        assert(x.drop_last() =~= a);
        assert(x =~= a + seq!['/']);
    } else {
        lemma_word_after(a, w.drop_last());
        assert(x.drop_last() =~= a + seq!['/'] + w.drop_last());
        assert(w.drop_last().push(w.last()) =~= w);
    }
}

proof fn lemma_components_join(cs: Seq<Seq<char>>)
    requires
        forall|i: int| 0 <= i < cs.len() ==> is_word(#[trigger] cs[i]),
    ensures
        components(join(cs)) == cs,
    decreases cs.len(),
{
    if cs.len() == 0 {
        assert(components(join(cs)) =~= cs);
    } else if cs.len() == 1 {
        lemma_word_alone(cs[0]);
        assert(seq![].push(cs[0]) =~= cs);
    } else {
        let init = cs.drop_last();
        assert(forall|i: int| 0 <= i < init.len() ==> is_word(#[trigger] init[i])) by {
            assert(forall|i: int| 0 <= i < init.len() ==> init[i] == cs[i]);
        }
        lemma_components_join(init);
        assert(is_word(cs[cs.len() - 1]));
        lemma_word_after(join(init), cs.last());
        assert(init.push(cs.last()) =~= cs);
    }
}

/// A path and its normal form have the same components, so they name the
/// same entry.
pub proof fn normalise_keeps_components(p: Seq<char>)
    ensures
        components(normalise(p)) == components(p),
{
    lemma_split_words(p);
    let (done, cur) = split_acc(p);
    assert forall|i: int| 0 <= i < components(p).len() implies is_word(
        #[trigger] components(p)[i],
    ) by {
        if i < done.len() {
            assert(components(p)[i] == done[i]);
        }
    }
    lemma_components_join(components(p));
}

/// Splits a path at `/` and drops the empty components.
pub fn path_components(path: &str) -> (r: Vec<String>)
    ensures
        r@.len() == components(path@).len(),
        forall|i: int| 0 <= i < r@.len() ==> #[trigger] r@[i]@ == components(path@)[i],
{
    let n = path.unicode_len();
    let mut out: Vec<String> = Vec::new();
    let ghost mut done: Seq<Seq<char>> = seq![];
    let mut cur: Vec<char> = Vec::new();
    let mut i: usize = 0;
    while i < n
        invariant
            n == path@.len(),
            i <= n,
            split_acc(path@.take(i as int)) == (done, cur@),
            out@.len() == done.len(),
            forall|k: int| 0 <= k < out@.len() ==> #[trigger] out@[k]@ == done[k],
        decreases n - i,
    {
        let c = path.get_char(i);
        assert(path@.take(i + 1).drop_last() =~= path@.take(i as int));
        if c == '/' {
            if cur.len() > 0 {
                out.push(string_of_chars(&cur));
                proof {
                    done = done.push(cur@);
                }
                cur = Vec::new();
            }
        } else {
            cur.push(c);
        }
        i += 1;
    }
    assert(path@.take(n as int) =~= path@);
    if cur.len() > 0 {
        out.push(string_of_chars(&cur));
        proof {
            done = done.push(cur@);
        }
    }
    out
}

} // verus!
