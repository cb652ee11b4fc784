//! Writing corrections into a text.

use vstd::prelude::*;

verus! {

/// Each correction replaces the bytes `start..end` by its third part.
pub open spec fn fix_view(f: (usize, usize, Vec<u8>)) -> (int, int, Seq<u8>) {
    (f.0 as int, f.1 as int, f.2@)
}

/// The corrections lie inside `len` bytes from `pos` on, in order, and
/// do not overlap.
pub open spec fn fixes_fit(fixes: Seq<(int, int, Seq<u8>)>, pos: int, len: int) -> bool
    decreases fixes.len(),
{
    if fixes.len() == 0 {
        pos <= len
    } else {
        pos <= fixes[0].0 <= fixes[0].1 && fixes_fit(fixes.drop_first(), fixes[0].1, len)
    }
}

/// The text from `pos` on with the corrections written in.
pub open spec fn spliced(text: Seq<u8>, fixes: Seq<(int, int, Seq<u8>)>, pos: int) -> Seq<u8>
    decreases fixes.len(),
{
    if fixes.len() == 0 {
        text.subrange(pos, text.len() as int)
    } else {
        text.subrange(pos, fixes[0].0) + fixes[0].2 + spliced(text, fixes.drop_first(), fixes[0].1)
    }
}

pub open spec fn fixes_view(fixes: Seq<(usize, usize, Vec<u8>)>) -> Seq<(int, int, Seq<u8>)> {
    fixes.map_values(|f: (usize, usize, Vec<u8>)| fix_view(f))
}

proof fn lemma_skip(fixes: Seq<(int, int, Seq<u8>)>, i: int)
    requires
        0 <= i < fixes.len(),
    ensures
        fixes.skip(i).drop_first() == fixes.skip(i + 1),
        fixes.skip(i)[0] == fixes[i],
        fixes.skip(i).len() > 0,
{
    assert(fixes.skip(i).drop_first() =~= fixes.skip(i + 1));
}

/// `text` with each correction written over its span; `None` where the
/// spans are out of order, overlap or pass the end of the text.
pub fn apply_fixes(text: &Vec<u8>, fixes: &Vec<(usize, usize, Vec<u8>)>) -> (r: Option<Vec<u8>>)
    ensures
        match r {
            Some(out) => fixes_fit(fixes_view(fixes@), 0, text@.len() as int) && out@ == spliced(
                text@,
                fixes_view(fixes@),
                0,
            ),
            None => !fixes_fit(fixes_view(fixes@), 0, text@.len() as int),
        },
{
    let ghost fv = fixes_view(fixes@);
    let mut out: Vec<u8> = Vec::new();
    let mut pos: usize = 0;
    let mut i: usize = 0;
    assert(fv.skip(0) =~= fv);
    while i < fixes.len()
        invariant
            fv == fixes_view(fixes@),
            i <= fixes@.len(),
            pos <= text@.len(),
            fixes_fit(fv, 0, text@.len() as int) == fixes_fit(fv.skip(i as int), pos as int, text@.len() as int),
            out@ + spliced(text@, fv.skip(i as int), pos as int) == spliced(text@, fv, 0),
        decreases fixes@.len() - i,
    {
        proof {
            lemma_skip(fv, i as int);
        }
        let start = fixes[i].0;
        let end = fixes[i].1;
        if !(pos <= start && start <= end && end <= text.len()) {
            proof {
                if fixes_fit(fv.skip(i as int + 1), end as int, text@.len() as int) {
                    lemma_fit_bound(fv.skip(i as int + 1), end as int, text@.len() as int);
                }
            }
            return None;
        }
        let ghost before = out@;
        let mut k: usize = pos;
        while k < start
            invariant
                pos <= k <= start,
                start <= text@.len(),
                out@ == before + text@.subrange(pos as int, k as int),
            decreases start - k,
        {
            out.push(text[k]);
            assert(text@.subrange(pos as int, k as int + 1) =~= text@.subrange(pos as int, k as int).push(text@[k as int]));
            k = k + 1;
        }
        let ghost mid = out@;
        let mut j: usize = 0;
        while j < fixes[i].2.len()
            invariant
                i < fixes@.len(),
                j <= fixes@[i as int].2@.len(),
                out@ == mid + fixes@[i as int].2@.subrange(0, j as int),
            decreases fixes@[i as int].2@.len() - j,
        {
            out.push(fixes[i].2[j]);
            assert(fixes@[i as int].2@.subrange(0, j as int + 1) =~= fixes@[i as int].2@.subrange(0, j as int).push(
                fixes@[i as int].2@[j as int],
            ));
            j = j + 1;
        }
        proof {
            assert(fixes@[i as int].2@.subrange(0, j as int) =~= fixes@[i as int].2@);
            assert(fv[i as int] == fix_view(fixes@[i as int]));
            assert(out@ + spliced(text@, fv.skip(i as int + 1), end as int) =~= before + spliced(
                text@,
                fv.skip(i as int),
                pos as int,
            ));
        }
        pos = end;
        i = i + 1;
    }
    let ghost before = out@;
    let mut k: usize = pos;
    while k < text.len()
        invariant
            pos <= k <= text@.len(),
            out@ == before + text@.subrange(pos as int, k as int),
        decreases text@.len() - k,
    {
        out.push(text[k]);
        assert(text@.subrange(pos as int, k as int + 1) =~= text@.subrange(pos as int, k as int).push(text@[k as int]));
        k = k + 1;
    }
    proof {
        assert(fv.skip(i as int).len() == 0);
        assert(out@ =~= spliced(text@, fv, 0));
    }
    Some(out)
}

proof fn lemma_fit_bound(fixes: Seq<(int, int, Seq<u8>)>, pos: int, len: int)
    requires
        fixes_fit(fixes, pos, len),
    ensures
        pos <= len,
    decreases fixes.len(),
{
    if fixes.len() > 0 {
        lemma_fit_bound(fixes.drop_first(), fixes[0].1, len);
    }
}

} // verus!
