//! Comparison of text by code point, used to keep string sets in a
//! canonical order.
use vstd::prelude::*;

verus! {

/// Lexicographic order on character sequences, comparing code points.
pub open spec fn text_lt(a: Seq<char>, b: Seq<char>) -> bool
    decreases a.len(),
{
    if b.len() == 0 {
        false
    } else if a.len() == 0 {
        true
    } else if a[0] != b[0] {
        (a[0] as int) < (b[0] as int)
    } else {
        text_lt(a.drop_first(), b.drop_first())
    }
}

pub proof fn lemma_text_lt_irreflexive(a: Seq<char>)
    ensures
        !text_lt(a, a),
    decreases a.len(),
{
    if a.len() > 0 {
        lemma_text_lt_irreflexive(a.drop_first());
    }
}

pub proof fn lemma_text_lt_transitive(a: Seq<char>, b: Seq<char>, c: Seq<char>)
    requires
        text_lt(a, b),
        text_lt(b, c),
    ensures
        text_lt(a, c),
    decreases a.len(),
{
    if a.len() > 0 && a[0] == b[0] && b[0] == c[0] {
        lemma_text_lt_transitive(a.drop_first(), b.drop_first(), c.drop_first());
    }
}

/// Compares two strings: negative when `a` orders first, zero when they are
/// equal, positive when `b` orders first.
pub fn compare_text(a: &str, b: &str) -> (r: i8)
    ensures
        r < 0 <==> text_lt(a@, b@),
        r == 0 <==> a@ == b@,
        r > 0 <==> text_lt(b@, a@),
{
    let la = a.unicode_len();
    let lb = b.unicode_len();
    let mut i: usize = 0;
    proof {
        assert(a@.skip(0) =~= a@);
        assert(b@.skip(0) =~= b@);
    }
    while i < la && i < lb
        invariant
            la == a@.len(),
            lb == b@.len(),
            i <= la,
            i <= lb,
            a@.subrange(0, i as int) == b@.subrange(0, i as int),
            text_lt(a@, b@) == text_lt(a@.skip(i as int), b@.skip(i as int)),
            text_lt(b@, a@) == text_lt(b@.skip(i as int), a@.skip(i as int)),
        decreases la - i,
    {
        let ca = a.get_char(i);
        let cb = b.get_char(i);
        if ca != cb {
            proof {
                assert(a@.skip(i as int)[0] == ca);
                assert(b@.skip(i as int)[0] == cb);
                assert((ca as int) != (cb as int));
                if a@ == b@ {
                    assert(a@[i as int] == b@[i as int]);
                }
            }
            if (ca as u32) < (cb as u32) {
                return -1;
            } else {
                return 1;
            }
        }
        proof {
            assert(a@.skip(i as int).drop_first() =~= a@.skip(i + 1));
            assert(b@.skip(i as int).drop_first() =~= b@.skip(i + 1));
            assert(a@.subrange(0, i + 1) =~= a@.subrange(0, i as int).push(ca));
            assert(b@.subrange(0, i + 1) =~= b@.subrange(0, i as int).push(cb));
        }
        i = i + 1;
    }
    proof {
        if i == la {
            assert(a@.subrange(0, i as int) =~= a@);
        }
        if i == lb {
            assert(b@.subrange(0, i as int) =~= b@);
        }
        if la == lb {
            assert(a@ =~= b@);
        } else if la < lb {
            assert(b@ =~= b@.subrange(0, i as int) + b@.skip(i as int));
            assert(a@ != b@);
        } else {
            assert(a@ =~= a@.subrange(0, i as int) + a@.skip(i as int));
            assert(a@ != b@);
        }
        lemma_text_lt_irreflexive(a@);
    }
    if la < lb {
        -1
    } else if la == lb {
        0
    } else {
        1
    }
}

} // verus!
