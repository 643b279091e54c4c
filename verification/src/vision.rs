use vstd::prelude::*;

verus! {

/// The direction a detection class of the arrow model stands for.
pub open spec fn class_name(class_id: usize) -> Seq<char> {
    if class_id == 0 {
        "UP"@
    } else if class_id == 1 {
        "DOWN"@
    } else if class_id == 2 {
        "LEFT"@
    } else if class_id == 3 {
        "RIGHT"@
    } else {
        "UNKNOWN"@
    }
}

/// The direction a detection class of the arrow model stands for:
/// `UNKNOWN` for a class the model does not have.
pub fn arrow_class_name(class_id: usize) -> (r: &'static str)
    ensures
        r@ == class_name(class_id),
{
    proof {
        reveal_strlit("UP");
        reveal_strlit("DOWN");
        reveal_strlit("LEFT");
        reveal_strlit("RIGHT");
        reveal_strlit("UNKNOWN");
    }
    if class_id == 0 {
        "UP"
    } else if class_id == 1 {
        "DOWN"
    } else if class_id == 2 {
        "LEFT"
    } else if class_id == 3 {
        "RIGHT"
    } else {
        "UNKNOWN"
    }
}

/// The directions of detection classes, in order.
pub fn arrow_class_names(class_ids: &Vec<usize>) -> (r: Vec<&'static str>)
    ensures
        r@.len() == class_ids@.len(),
        forall|i: int| 0 <= i < r@.len() ==> (#[trigger] r@[i])@ == class_name(class_ids@[i]),
{
    let mut out: Vec<&'static str> = Vec::new();
    let n = class_ids.len();
    let mut i: usize = 0;
    while i < n
        invariant
            n == class_ids@.len(),
            i <= n,
            out@.len() == i,
            forall|j: int| 0 <= j < i ==> (#[trigger] out@[j])@ == class_name(class_ids@[j]),
        decreases n - i,
    {
        out.push(arrow_class_name(class_ids[i]));
        i += 1;
    }
    out
}

/// Pixels of four bytes with the alpha byte dropped: pixel `i` of the
/// result is red, green and blue of pixel `i` of `rgba`; bytes after the
/// last whole pixel are ignored.
pub fn rgba_to_rgb(rgba: &Vec<u8>) -> (r: Vec<u8>)
    ensures
        r@.len() == 3 * (rgba@.len() / 4),
        forall|i: int, k: int|
            0 <= i < rgba@.len() / 4 && 0 <= k < 3 ==> #[trigger] r@[3 * i + k] == rgba@[4 * i + k],
{
    let n = rgba.len();
    let pixels = n / 4;
    assert(4 * pixels <= n);
    let mut out: Vec<u8> = Vec::new();
    let mut i: usize = 0;
    while i < pixels
        invariant
            n == rgba@.len(),
            pixels == n / 4,
            4 * pixels <= n,
            i <= pixels,
            out@.len() == 3 * i,
            forall|p: int, k: int|
                0 <= p < i && 0 <= k < 3 ==> #[trigger] out@[3 * p + k] == rgba@[4 * p + k],
        decreases pixels - i,
    {
        let base = 4 * i;
        let ghost before = out@;
        out.push(rgba[base]);
        out.push(rgba[base + 1]);
        out.push(rgba[base + 2]);
        assert forall|p: int, k: int| 0 <= p < i + 1 && 0 <= k < 3 implies #[trigger] out@[3 * p + k]
            == rgba@[4 * p + k] by {
            if p < i {
                assert(before[3 * p + k] == rgba@[4 * p + k]);
            }
        }
        i += 1;
    }
    out
}

/// Pixels of four bytes in blue, green, red, alpha order turned into red,
/// green, blue, alpha order; bytes after the last whole pixel are kept.
pub fn bgra_to_rgba(bgra: &Vec<u8>) -> (r: Vec<u8>)
    ensures
        r@.len() == bgra@.len(),
        forall|i: int|
            0 <= i < bgra@.len() / 4 ==> {
                &&& #[trigger] r@[4 * i] == bgra@[4 * i + 2]
                &&& r@[4 * i + 1] == bgra@[4 * i + 1]
                &&& r@[4 * i + 2] == bgra@[4 * i]
                &&& r@[4 * i + 3] == bgra@[4 * i + 3]
            },
        forall|j: int| 4 * (bgra@.len() / 4) <= j < bgra@.len() ==> #[trigger] r@[j] == bgra@[j],
{
    let n = bgra.len();
    let pixels = n / 4;
    assert(4 * pixels <= n);
    let mut out: Vec<u8> = Vec::new();
    let mut i: usize = 0;
    while i < pixels
        invariant
            n == bgra@.len(),
            pixels == n / 4,
            4 * pixels <= n,
            i <= pixels,
            out@.len() == 4 * i,
            forall|p: int|
                0 <= p < i ==> {
                    &&& #[trigger] out@[4 * p] == bgra@[4 * p + 2]
                    &&& out@[4 * p + 1] == bgra@[4 * p + 1]
                    &&& out@[4 * p + 2] == bgra@[4 * p]
                    &&& out@[4 * p + 3] == bgra@[4 * p + 3]
                },
        decreases pixels - i,
    {
        let base = 4 * i;
        let ghost before = out@;
        out.push(bgra[base + 2]);
        out.push(bgra[base + 1]);
        out.push(bgra[base]);
        out.push(bgra[base + 3]);
        assert forall|p: int| 0 <= p < i + 1 implies {
            &&& #[trigger] out@[4 * p] == bgra@[4 * p + 2]
            &&& out@[4 * p + 1] == bgra@[4 * p + 1]
            &&& out@[4 * p + 2] == bgra@[4 * p]
            &&& out@[4 * p + 3] == bgra@[4 * p + 3]
        } by {
            if p < i {
                assert(before[4 * p] == bgra@[4 * p + 2]);
            }
        }
        i += 1;
    }
    let mut j: usize = 4 * pixels;
    while j < n
        invariant
            n == bgra@.len(),
            pixels == n / 4,
            4 * pixels <= n,
            4 * pixels <= j <= n,
            out@.len() == j,
            forall|p: int|
                0 <= p < pixels ==> {
                    &&& #[trigger] out@[4 * p] == bgra@[4 * p + 2]
                    &&& out@[4 * p + 1] == bgra@[4 * p + 1]
                    &&& out@[4 * p + 2] == bgra@[4 * p]
                    &&& out@[4 * p + 3] == bgra@[4 * p + 3]
                },
            forall|q: int| 4 * pixels <= q < j ==> #[trigger] out@[q] == bgra@[q],
        decreases n - j,
    {
        out.push(bgra[j]);
        j += 1;
    }
    out
}

} // verus!
