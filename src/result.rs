//! Shaping the results of a request's queries: header renames, and the
//! column-wise stitching of their result frames.
use vstd::prelude::*;
use crate::names::QueryError;
use crate::resolver::{HeaderView, headers_view};
use crate::text::text_eq;

verus! {

/// `s` with every occurrence of `p`, scanned left to right without overlap,
/// replaced by `t`; an empty `p` changes nothing.
pub open spec fn replace_seq(s: Seq<char>, p: Seq<char>, t: Seq<char>) -> Seq<char>
    decreases s.len(),
{
    if p.len() == 0 || s.len() < p.len() {
        s
    } else if s.subrange(0, p.len() as int) == p {
        t + replace_seq(s.subrange(p.len() as int, s.len() as int), p, t)
    } else {
        seq![s[0]] + replace_seq(s.drop_first(), p, t)
    }
}

/// Whether `p` occurs in `s`.
pub open spec fn contains_seq(s: Seq<char>, p: Seq<char>) -> bool {
    exists|i: int| 0 <= i && i + p.len() <= s.len() && #[trigger] s.subrange(i, i + p.len()) == p
}

/// Replaces every occurrence of `p` in `s` by `t`.
pub fn replace_all(s: &str, p: &str, t: &str) -> (r: String)
    ensures
        r@ == replace_seq(s@, p@, t@),
{
    let n = s.unicode_len();
    let m = p.unicode_len();
    let mut out = String::new();
    if m == 0 {
        out.append(s);
        assert(out@ =~= s@);
        return out;
    }
    let mut i: usize = 0;
    assert(s@.subrange(0, n as int) =~= s@);
    while i < n
        invariant
            n == s@.len(),
            m == p@.len(),
            m > 0,
            i <= n,
            out@ + replace_seq(s@.subrange(i as int, n as int), p@, t@) == replace_seq(s@, p@, t@),
        decreases n - i,
    {
        let ghost rest = s@.subrange(i as int, n as int);
        if n - i < m {
            assert(replace_seq(rest, p@, t@) == rest);
            out.append(s.substring_char(i, n));
            assert(out@ + replace_seq(s@.subrange(n as int, n as int), p@, t@) =~= out@);
            i = n;
        } else {
            let w = s.substring_char(i, i + m);
            assert(rest.subrange(0, m as int) =~= w@);
            if text_eq(w, p) {
                assert(rest.subrange(m as int, rest.len() as int) =~= s@.subrange(i + m, n as int));
                let ghost before = out@;
                out.append(t);
                assert(before + replace_seq(rest, p@, t@) =~= out@ + replace_seq(
                    s@.subrange(i + m, n as int),
                    p@,
                    t@,
                ));
                i = i + m;
            } else {
                assert(rest.drop_first() =~= s@.subrange(i + 1, n as int));
                let c = s.substring_char(i, i + 1);
                assert(c@ =~= seq![rest[0]]);
                let ghost before = out@;
                out.append(c);
                assert(before + replace_seq(rest, p@, t@) =~= out@ + replace_seq(
                    s@.subrange(i + 1, n as int),
                    p@,
                    t@,
                ));
                i = i + 1;
            }
        }
    }
    assert(s@.subrange(n as int, n as int) =~= Seq::<char>::empty());
    assert(out@ + Seq::<char>::empty() =~= out@);
    out
}

/// Whether `p` occurs in `s`.
pub fn contains_text(s: &str, p: &str) -> (r: bool)
    ensures
        r == contains_seq(s@, p@),
{
    let n = s.unicode_len();
    let m = p.unicode_len();
    if m > n {
        return false;
    }
    let last = n - m;
    let mut i: usize = 0;
    loop
        invariant
            n == s@.len(),
            m == p@.len(),
            m <= n,
            last == n - m,
            i <= last,
            forall|j: int| 0 <= j < i ==> #[trigger] s@.subrange(j, j + m) != p@,
        decreases last - i,
    {
        let w = s.substring_char(i, i + m);
        if text_eq(w, p) {
            return true;
        }
        if i == last {
            return false;
        }
        i = i + 1;
    }
}

/// A result header after the renames: for each rename in order whose key
/// occurs in the header as given, the key is replaced by its value.
pub open spec fn renamed(h: Seq<char>, cur: Seq<char>, map: HeaderView) -> Seq<char>
    decreases map.len(),
{
    if map.len() == 0 {
        cur
    } else {
        let prev = renamed(h, cur, map.drop_last());
        let (k, v) = map.last();
        if contains_seq(h, k) {
            replace_seq(prev, k, v)
        } else {
            prev
        }
    }
}

/// Applies the header renames to each result header.
pub fn rename_headers(headers: &Vec<String>, header_map: &Vec<(String, String)>) -> (r: Vec<String>)
    ensures
        r@.len() == headers@.len(),
        forall|i: int|
            0 <= i < headers@.len() ==> (#[trigger] r@[i])@ == renamed(headers@[i]@, headers@[i]@, headers_view(header_map@)),
{
    let mut out: Vec<String> = Vec::new();
    let mut i: usize = 0;
    while i < headers.len()
        invariant
            i <= headers.len(),
            out@.len() == i,
            forall|j: int|
                0 <= j < i ==> (#[trigger] out@[j])@ == renamed(headers@[j]@, headers@[j]@, headers_view(header_map@)),
        decreases headers.len() - i,
    {
        let h = &headers[i];
        let mut cur = h.clone();
        let mut k: usize = 0;
        assert(headers_view(header_map@).subrange(0, 0) =~= Seq::<(Seq<char>, Seq<char>)>::empty());
        while k < header_map.len()
            invariant
                k <= header_map.len(),
                cur@ == renamed(h@, h@, headers_view(header_map@).subrange(0, k as int)),
            decreases header_map.len() - k,
        {
            proof {
                let s = headers_view(header_map@).subrange(0, k as int + 1);
                assert(s.drop_last() =~= headers_view(header_map@).subrange(0, k as int));
            }
            let e = &header_map[k];
            if contains_text(h.as_str(), e.0.as_str()) {
                cur = replace_all(cur.as_str(), e.0.as_str(), e.1.as_str());
            }
            k = k + 1;
        }
        assert(headers_view(header_map@).subrange(0, k as int) =~= headers_view(header_map@));
        out.push(cur);
        i = i + 1;
    }
    out
}

/// The kind of values in a result column.
#[derive(Debug, Clone, Copy, PartialEq, Eq, Structural)]
pub enum ColumnKind {
    Int8,
    Int16,
    Int32,
    Int64,
    UInt8,
    UInt16,
    UInt32,
    UInt64,
    Float32,
    Float64,
    Text,
}

/// A result column, its values written as text.
#[derive(Debug, Clone, PartialEq, Eq)]
pub struct Column {
    pub kind: ColumnKind,
    pub values: Vec<String>,
}

/// The kind of column `c` of the stitched frame: the common kind, or text
/// where the frames disagree.
pub open spec fn stitched_kind(frames: Seq<Vec<Column>>, c: int) -> ColumnKind {
    if forall|f: int| 0 <= f < frames.len() ==> (#[trigger] frames[f])@[c].kind == frames[0]@[c].kind {
        frames[0]@[c].kind
    } else {
        ColumnKind::Text
    }
}

/// The values of column `c` of the first `n` frames, frame after frame.
pub open spec fn stitched_values(frames: Seq<Vec<Column>>, c: int, n: int) -> Seq<Seq<char>>
    decreases n,
{
    if n <= 0 {
        Seq::empty()
    } else {
        stitched_values(frames, c, n - 1) + frames[n - 1]@[c].values.deep_view()
    }
}

/// Whether every frame has at least as many columns as the first.
pub open spec fn frames_aligned(frames: Seq<Vec<Column>>) -> bool {
    frames.len() > 0 && forall|f: int| 0 <= f < frames.len() ==> (#[trigger] frames[f])@.len() >= frames[0]@.len()
}

/// Stitches the result frames of a request's queries column by column, in
/// the order the queries were emitted; a column whose kinds disagree becomes
/// text. No frames, or a frame shorter than the first, is an error.
pub fn stitch_columns(frames: &Vec<Vec<Column>>) -> (r: Result<Vec<Column>, QueryError>)
    ensures
        !frames_aligned(frames@) <==> r is Err,
        r matches Ok(cols) ==> cols@.len() == frames@[0]@.len() && forall|c: int|
            0 <= c < cols@.len() ==> (#[trigger] cols@[c]).kind == stitched_kind(frames@, c)
                && cols@[c].values.deep_view() == stitched_values(frames@, c, frames@.len() as int),
{
    if frames.len() == 0 {
        return Err(QueryError::MissingConstraint);
    }
    let ncols = frames[0].len();
    let mut f: usize = 0;
    while f < frames.len()
        invariant
            f <= frames.len(),
            ncols == frames@[0]@.len(),
            forall|g: int| 0 <= g < f ==> (#[trigger] frames@[g])@.len() >= ncols,
        decreases frames.len() - f,
    {
        if frames[f].len() < ncols {
            return Err(QueryError::MissingConstraint);
        }
        f = f + 1;
    }
    let mut out: Vec<Column> = Vec::new();
    let mut c: usize = 0;
    while c < ncols
        invariant
            c <= ncols,
            ncols == frames@[0]@.len(),
            frames_aligned(frames@),
            out@.len() == c,
            forall|d: int|
                0 <= d < c ==> (#[trigger] out@[d]).kind == stitched_kind(frames@, d) && out@[d].values.deep_view()
                    == stitched_values(frames@, d, frames@.len() as int),
        decreases ncols - c,
    {
        let first = frames[0][c].kind;
        let mut same = true;
        let mut values: Vec<String> = Vec::new();
        let mut g: usize = 0;
        while g < frames.len()
            invariant
                g <= frames.len(),
                c < ncols,
                ncols == frames@[0]@.len(),
                frames_aligned(frames@),
                first == frames@[0]@[c as int].kind,
                same <==> forall|h: int| 0 <= h < g ==> (#[trigger] frames@[h])@[c as int].kind == first,
                values.deep_view() =~= stitched_values(frames@, c as int, g as int),
            decreases frames.len() - g,
        {
            let col = &frames[g][c];
            if col.kind != first {
                same = false;
            }
            let mut v: usize = 0;
            let ghost base = values.deep_view();
            while v < col.values.len()
                invariant
                    v <= col.values.len(),
                    values.deep_view() =~= base + col.values.deep_view().subrange(0, v as int),
                decreases col.values.len() - v,
            {
                let x = col.values[v].clone();
                let ghost b = values.deep_view();
                values.push(x);
                assert(values.deep_view() =~= b.push(x@));
                v = v + 1;
            }
            assert(col.values.deep_view().subrange(0, v as int) =~= col.values.deep_view());
            g = g + 1;
        }
        let kind = if same {
            first
        } else {
            ColumnKind::Text
        };
        out.push(Column { kind, values });
        c = c + 1;
    }
    Ok(out)
}

} // verus!
