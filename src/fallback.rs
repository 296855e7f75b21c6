use vstd::prelude::*;
use crate::text::{chars_of, string_of};

verus! {

/// Whether `c` separates path segments: either platform's separator.
pub open spec fn is_separator(c: char) -> bool {
    c == '/' || c == '\\'
}

/// The non-empty segments of `p`, split at every separator, in order.
pub open spec fn segments(p: Seq<char>) -> Seq<Seq<char>>
    decreases p.len(),
{
    if p.len() == 0 {
        seq![]
    } else {
        let init = p.drop_last();
        let c = p.last();
        let prev = segments(init);
        if is_separator(c) {
            prev
        } else if init.len() > 0 && !is_separator(init.last()) {
            prev.update(prev.len() - 1, prev.last().push(c))
        } else {
            prev.push(seq![c])
        }
    }
}

/// The first character of each of `segs`, joined with `/`.
pub open spec fn joined_initials(segs: Seq<Seq<char>>) -> Seq<char>
    decreases segs.len(),
{
    if segs.len() == 0 {
        seq![]
    } else if segs.len() == 1 {
        seq![segs[0][0]]
    } else {
        joined_initials(segs.drop_last()) + seq!['/', segs.last()[0]]
    }
}

pub open spec fn unknown_label() -> Seq<char> {
    seq!['U', 'n', 'k', 'n', 'o', 'w', 'n']
}

/// The short form of a path: every segment but the last two cut to its first character,
/// then the last two whole, all joined with `/`. A path of at most two segments gives its
/// last segment, and one of none gives `Unknown`.
pub open spec fn abbreviated_path(p: Seq<char>) -> Seq<char> {
    let segs = segments(p);
    let n = segs.len();
    if n == 0 {
        unknown_label()
    } else if n <= 2 {
        segs[n - 1]
    } else {
        joined_initials(segs.take(n - 2)) + seq!['/'] + segs[n - 2] + seq!['/'] + segs[n - 1]
    }
}

/// No segment is empty.
pub proof fn lemma_segments_nonempty(p: Seq<char>)
    ensures
        forall|k: int| 0 <= k < segments(p).len() ==> #[trigger] segments(p)[k].len() > 0,
        p.len() > 0 && !is_separator(p.last()) ==> segments(p).len() > 0,
    decreases p.len(),
{
    if p.len() > 0 {
        let init = p.drop_last();
        lemma_segments_nonempty(init);
        let prev = segments(init);
        if !is_separator(p.last()) && init.len() > 0 && !is_separator(init.last()) {
            assert forall|k: int| 0 <= k < segments(p).len() implies #[trigger] segments(p)[k].len()
                > 0 by {
                if k < prev.len() - 1 {
                    assert(segments(p)[k] == prev[k]);
                }
            }
        }
    }
}

pub proof fn lemma_abbreviated_path_nonempty(p: Seq<char>)
    ensures
        abbreviated_path(p).len() > 0,
{
    lemma_segments_nonempty(p);
}

/// The character sequences that `v` holds.
pub open spec fn views(v: Seq<Vec<char>>) -> Seq<Seq<char>> {
    v.map_values(|x: Vec<char>| x@)
}

/// Splits `v` into its non-empty segments.
pub fn split_segments(v: &Vec<char>) -> (r: Vec<Vec<char>>)
    ensures
        views(r@) == segments(v@),
{
    let mut segs: Vec<Vec<char>> = Vec::new();
    let mut cur: Vec<char> = Vec::new();
    let mut i: usize = 0;
    while i < v.len()
        invariant
            i <= v.len(),
            cur@.len() > 0 <==> (i > 0 && !is_separator(v@[i - 1])),
            cur@.len() > 0 ==> views(segs@).push(cur@) == segments(v@.take(i as int)),
            cur@.len() == 0 ==> views(segs@) == segments(v@.take(i as int)),
        decreases v.len() - i,
    {
        let c = v[i];
        assert(v@.take(i + 1).drop_last() == v@.take(i as int));
        if c == '/' || c == '\\' {
            if cur.len() > 0 {
                let ghost before = views(segs@);
                let ghost seg = cur@;
                segs.push(cur);
                cur = Vec::new();
                assert(views(segs@) =~= before.push(seg));
            }
        } else {
            let ghost before = cur@;
            cur.push(c);
            proof {
                if before.len() > 0 {
                    assert(views(segs@).push(cur@) =~= views(segs@).push(before).update(
                        views(segs@).len() as int,
                        before.push(c),
                    ));
                } else {
                    assert(cur@ =~= seq![c]);
                }
            }
        }
        i = i + 1;
    }
    if cur.len() > 0 {
        let ghost before = views(segs@);
        let ghost seg = cur@;
        segs.push(cur);
        assert(views(segs@) =~= before.push(seg));
    }
    assert(v@.take(v.len() as int) == v@);
    segs
}

} // verus!

verus! {

/// Appends all of `w` to `out`.
fn append_chars(out: &mut Vec<char>, w: &Vec<char>)
    ensures
        final(out)@ == old(out)@ + w@,
{
    let mut i: usize = 0;
    while i < w.len()
        invariant
            i <= w.len(),
            out@ == old(out)@ + w@.take(i as int),
        decreases w.len() - i,
    {
        out.push(w[i]);
        assert(w@.take(i + 1) =~= w@.take(i as int).push(w@[i as int]));
        i = i + 1;
    }
    assert(w@.take(w.len() as int) =~= w@);
}

/// The short label for a path when no project marker names it: every segment but the
/// last two cut to its first character, then the last two, joined with `/`.
pub fn abbreviate_path(path: &str) -> (r: String)
    ensures
        r@ == abbreviated_path(path@),
        r@.len() > 0,
{
    proof {
        lemma_abbreviated_path_nonempty(path@);
        lemma_segments_nonempty(path@);
    }
    let chars = chars_of(path);
    let segs = split_segments(&chars);
    let n = segs.len();
    let mut out: Vec<char> = Vec::new();
    if n == 0 {
        out = vec!['U', 'n', 'k', 'n', 'o', 'w', 'n'];
        assert(out@ =~= unknown_label());
    } else if n <= 2 {
        append_chars(&mut out, &segs[n - 1]);
    } else {
        let ghost all = views(segs@);
        let mut k: usize = 0;
        while k < n - 2
            invariant
                n == segs.len(),
                all == views(segs@),
                all == segments(path@),
                forall|j: int| 0 <= j < all.len() ==> #[trigger] all[j].len() > 0,
                k <= n - 2,
                out@ == joined_initials(all.take(k as int)),
            decreases n - 2 - k,
        {
            assert(all.take(k + 1).drop_last() =~= all.take(k as int));
            assert(segs[k as int]@ == all[k as int]);
            if k > 0 {
                out.push('/');
            } else {
                assert(out@ =~= seq![]);
            }
            out.push(segs[k][0]);
            k = k + 1;
        }
        out.push('/');
        append_chars(&mut out, &segs[n - 2]);
        out.push('/');
        append_chars(&mut out, &segs[n - 1]);
        assert(out@ =~= joined_initials(all.take(n - 2)) + seq!['/'] + all[n - 2] + seq!['/']
            + all[n - 1]);
    }
    string_of(&out, 0, out.len())
}

} // verus!
