//! A headers collection: a case-insensitive mapping from header name to
//! an ordered sequence of values, with duplicates kept in insertion order.

use vstd::prelude::*;
use crate::ascii::lower;
use crate::ascii::is_ows;
use crate::ascii::trim_ows;
use crate::ascii::trim_start_ows;
use crate::ascii::trim_end_ows;
use crate::ascii::crlf;
use crate::ascii::eq_ignore_case;
use crate::ascii::push_bytes;
use crate::ascii::spec_parse_dec;
use crate::ascii::parse_dec_u64;

verus! {

/// An ordered list of header fields. Lookup folds ASCII case on the
/// name; insertion order, duplicates included, is preserved.
#[derive(Clone, Debug)]
pub struct Headers {
    /// The fields, in insertion order.
    pub fields: Vec<(Vec<u8>, Vec<u8>)>,
}

impl View for Headers {
    type V = Seq<(Seq<u8>, Seq<u8>)>;

    open spec fn view(&self) -> Seq<(Seq<u8>, Seq<u8>)> {
        Seq::new(self.fields@.len(), |i: int| (self.fields@[i].0@, self.fields@[i].1@))
    }
}

/// Whether some field of `hs` has this name, ASCII case aside.
pub open spec fn has_name(hs: Seq<(Seq<u8>, Seq<u8>)>, name: Seq<u8>) -> bool {
    exists|i: int| 0 <= i < hs.len() && lower(hs[i].0) == lower(name)
}

/// The value of the first field named `name`, if any.
pub open spec fn first_value(hs: Seq<(Seq<u8>, Seq<u8>)>, name: Seq<u8>) -> Option<Seq<u8>>
    decreases hs.len(),
{
    if hs.len() == 0 {
        None
    } else if lower(hs[0].0) == lower(name) {
        Some(hs[0].1)
    } else {
        first_value(hs.skip(1), name)
    }
}

/// `hs` without the fields named `name`.
pub open spec fn remove_name(hs: Seq<(Seq<u8>, Seq<u8>)>, name: Seq<u8>) -> Seq<
    (Seq<u8>, Seq<u8>),
> {
    hs.filter(|f: (Seq<u8>, Seq<u8>)| lower(f.0) != lower(name))
}

/// Whether the comma-separated list in `v`, read from `from` on, holds
/// the token `tok`, ASCII case and surrounding whitespace aside.
pub open spec fn has_token_from(v: Seq<u8>, from: int, tok: Seq<u8>) -> bool
    recommends
        0 <= from <= v.len(),
    decreases v.len() - from
        when 0 <= from <= v.len()
        via check_has_token_from_decreases
{
    let end = comma_or_end(v, from);
    if lower(trim_ows(v.subrange(from, end))) == lower(tok) {
        true
    } else if end == v.len() {
        false
    } else {
        has_token_from(v, end + 1, tok)
    }
}

#[via_fn]
proof fn check_has_token_from_decreases(v: Seq<u8>, from: int, tok: Seq<u8>) {
    lemma_comma_or_end_bounds(v, from);
}

/// The index of the first comma at or after `from`, or the end.
pub open spec fn comma_or_end(v: Seq<u8>, from: int) -> int
    recommends
        0 <= from <= v.len(),
    decreases v.len() - from
        when 0 <= from <= v.len()
{
    if from >= v.len() {
        v.len() as int
    } else if v[from] == 44 {
        from
    } else {
        comma_or_end(v, from + 1)
    }
}

/// `comma_or_end` stays within the string and past `from`.
pub proof fn lemma_comma_or_end_bounds(v: Seq<u8>, from: int)
    requires
        0 <= from <= v.len(),
    ensures
        from <= comma_or_end(v, from) <= v.len(),
        comma_or_end(v, from) < v.len() ==> v[comma_or_end(v, from)] == 44,
        forall|j: int| from <= j < comma_or_end(v, from) ==> v[j] != 44,
    decreases v.len() - from,
{
    if from < v.len() && v[from] != 44 {
        lemma_comma_or_end_bounds(v, from + 1);
    }
}

/// Whether any field named `name` lists the token `tok`.
pub open spec fn has_token(hs: Seq<(Seq<u8>, Seq<u8>)>, name: Seq<u8>, tok: Seq<u8>) -> bool {
    exists|i: int|
        0 <= i < hs.len() && lower(hs[i].0) == lower(name) && has_token_from(hs[i].1, 0, tok)
}

/// One serialized header line: `name: value` and the line end.
pub open spec fn field_bytes(f: (Seq<u8>, Seq<u8>)) -> Seq<u8> {
    f.0 + seq![58u8, 32u8] + f.1 + crlf()
}

/// The serialized header block, in order, without the final blank line.
pub open spec fn headers_bytes(hs: Seq<(Seq<u8>, Seq<u8>)>) -> Seq<u8>
    decreases hs.len(),
{
    if hs.len() == 0 {
        Seq::empty()
    } else {
        headers_bytes(hs.drop_last()) + field_bytes(hs.last())
    }
}

impl Headers {
    /// An empty collection.
    pub fn new() -> (r: Headers)
        ensures
            r@ == Seq::<(Seq<u8>, Seq<u8>)>::empty(),
    {
        let r = Headers { fields: Vec::new() };
        proof {
            assert(r@ =~= Seq::<(Seq<u8>, Seq<u8>)>::empty());
        }
        r
    }

    /// How many fields the collection holds.
    pub fn len(&self) -> (n: usize)
        ensures
            n == self@.len(),
    {
        self.fields.len()
    }

    /// The name of the field at `i`.
    pub fn name_at(&self, i: usize) -> (r: &Vec<u8>)
        requires
            i < self@.len(),
        ensures
            r@ == self@[i as int].0,
    {
        &self.fields[i].0
    }

    /// The value of the field at `i`.
    pub fn value_at(&self, i: usize) -> (r: &Vec<u8>)
        requires
            i < self@.len(),
        ensures
            r@ == self@[i as int].1,
    {
        &self.fields[i].1
    }

    /// Adds a field at the end, keeping whatever is already there.
    pub fn append(&mut self, name: Vec<u8>, value: Vec<u8>)
        ensures
            final(self)@ == old(self)@ + seq![(name@, value@)],
    {
        let ghost oldv = self@;
        self.fields.push((name, value));
        proof {
            assert(self@ =~= oldv + seq![(name@, value@)]);
        }
    }

    /// Whether a field with this name exists, case aside.
    pub fn has(&self, name: &[u8]) -> (r: bool)
        ensures
            r == has_name(self@, name@),
    {
        let n = self.fields.len();
        let mut i: usize = 0;
        while i < n
            invariant
                n == self@.len(),
                i <= n,
                forall|j: int| 0 <= j < i ==> lower(self@[j].0) != lower(name@),
            decreases n - i,
        {
            if eq_ignore_case(self.fields[i].0.as_slice(), name) {
                proof {
                    assert(lower(self@[i as int].0) == lower(name@));
                }
                return true;
            }
            i = i + 1;
        }
        false
    }

    /// The value of the first field with this name, if any.
    pub fn get_first(&self, name: &[u8]) -> (r: Option<&Vec<u8>>)
        ensures
            match r {
                Some(v) => first_value(self@, name@) == Some(v@),
                None => first_value(self@, name@) is None,
            },
    {
        let n = self.fields.len();
        let mut i: usize = 0;
        proof {
            assert(self@.skip(0int) =~= self@);
        }
        while i < n
            invariant
                n == self@.len(),
                i <= n,
                forall|j: int| 0 <= j < i ==> lower(self@[j].0) != lower(name@),
                first_value(self@, name@) == first_value(self@.skip(i as int), name@),
            decreases n - i,
        {
            proof {
                assert(self@.skip(i as int)[0] == self@[i as int]);
                assert(self@.skip(i as int).skip(1) =~= self@.skip(i + 1 as int));
            }
            if eq_ignore_case(self.fields[i].0.as_slice(), name) {
                return Some(&self.fields[i].1);
            }
            i = i + 1;
        }
        proof {
            assert(self@.skip(n as int).len() == 0);
        }
        None
    }

    /// Replaces every field with this name by the one given.
    pub fn set(&mut self, name: Vec<u8>, value: Vec<u8>)
        ensures
            final(self)@ == remove_name(old(self)@, name@) + seq![(name@, value@)],
    {
        let n = self.fields.len();
        let mut kept: Vec<(Vec<u8>, Vec<u8>)> = Vec::new();
        let mut i: usize = 0;
        proof {
            assert(self@.take(0int).filter(
                |f: (Seq<u8>, Seq<u8>)| lower(f.0) != lower(name@),
            ) =~= Seq::<(Seq<u8>, Seq<u8>)>::empty());
        }
        while i < n
            invariant
                n == self@.len() == self.fields@.len(),
                i <= n,
                views_of(kept@) =~= self@.take(i as int).filter(
                    |f: (Seq<u8>, Seq<u8>)| lower(f.0) != lower(name@),
                ),
            decreases n - i,
        {
            let ghost prev = self@.take(i as int);
            proof {
                assert(self@.take(i + 1 as int).drop_last() =~= prev);
                assert(self@.take(i + 1 as int).last() == self@[i as int]);
                reveal_with_fuel(Seq::filter, 2);
            }
            if !eq_ignore_case(self.fields[i].0.as_slice(), name.as_slice()) {
                let nm = self.fields[i].0.clone();
                let vl = self.fields[i].1.clone();
                let ghost kv = kept@;
                kept.push((nm, vl));
                proof {
                    assert(views_of(kept@) =~= views_of(kv) + seq![self@[i as int]]);
                }
            }
            i = i + 1;
        }
        proof {
            assert(self@.take(n as int) =~= self@);
        }
        let ghost kv = kept@;
        kept.push((name, value));
        proof {
            assert(views_of(kept@) =~= views_of(kv) + seq![(name@, value@)]);
        }
        self.fields = kept;
        proof {
            assert(self@ =~= views_of(self.fields@));
        }
    }

    /// Reads the first `Content-Length` value as a number, if it is one.
    pub fn content_length(&self) -> (r: Option<u64>)
        ensures
            r == spec_content_length(self@),
    {
        // "content-length" is 14 bytes
        let name: [u8; 14] = [99, 111, 110, 116, 101, 110, 116, 45, 108, 101, 110, 103, 116, 104];
        proof {
            assert(name@ =~= content_length_name());
        }
        match self.get_first(name.as_slice()) {
            Some(v) => parse_dec_u64(v.as_slice()),
            None => None,
        }
    }

    /// Whether the comma-separated list of any field named `name` holds
    /// the token `tok`.
    pub fn has_list_token(&self, name: &[u8], tok: &[u8]) -> (r: bool)
        ensures
            r == has_token(self@, name@, tok@),
    {
        let n = self.fields.len();
        let mut i: usize = 0;
        while i < n
            invariant
                n == self@.len(),
                i <= n,
                forall|j: int|
                    0 <= j < i ==> !(lower(self@[j].0) == lower(name@) && has_token_from(
                        self@[j].1,
                        0,
                        tok@,
                    )),
            decreases n - i,
        {
            if eq_ignore_case(self.fields[i].0.as_slice(), name) {
                if value_has_token(self.fields[i].1.as_slice(), 0, tok) {
                    proof {
                        assert(lower(self@[i as int].0) == lower(name@) && has_token_from(
                            self@[i as int].1,
                            0,
                            tok@,
                        ));
                    }
                    return true;
                }
            }
            i = i + 1;
        }
        false
    }
}

/// Appends the serialized header block: one `name: value` line per
/// field, in order, without the final blank line.
pub fn push_headers(out: &mut Vec<u8>, hs: &Headers)
    ensures
        final(out)@ == old(out)@ + headers_bytes(hs@),
{
    let n = hs.fields.len();
    let mut i: usize = 0;
    proof {
        assert(hs@.take(0int) =~= Seq::<(Seq<u8>, Seq<u8>)>::empty());
        assert(out@ =~= old(out)@ + headers_bytes(hs@.take(0int)));
    }
    while i < n
        invariant
            n == hs@.len() == hs.fields@.len(),
            i <= n,
            out@ == old(out)@ + headers_bytes(hs@.take(i as int)),
        decreases n - i,
    {
        push_bytes(out, hs.fields[i].0.as_slice());
        out.push(58);
        out.push(32);
        push_bytes(out, hs.fields[i].1.as_slice());
        crate::ascii::push_crlf(out);
        proof {
            assert(hs@.take(i + 1 as int).drop_last() =~= hs@.take(i as int));
            assert(hs@.take(i + 1 as int).last() == hs@[i as int]);
            assert(out@ =~= old(out)@ + headers_bytes(hs@.take(i + 1 as int)));
        }
        i = i + 1;
    }
    proof {
        assert(hs@.take(n as int) =~= hs@);
    }
}

/// The views of a raw field list, in order.
pub open spec fn views_of(fs: Seq<(Vec<u8>, Vec<u8>)>) -> Seq<(Seq<u8>, Seq<u8>)> {
    Seq::new(fs.len(), |i: int| (fs[i].0@, fs[i].1@))
}

/// The canonical (lower-case) name of the `Content-Length` header.
pub open spec fn content_length_name() -> Seq<u8> {
    seq![99u8, 111u8, 110u8, 116u8, 101u8, 110u8, 116u8, 45u8, 108u8, 101u8, 110u8, 103u8, 116u8, 104u8]
}

/// The number the first `Content-Length` field carries, if any.
pub open spec fn spec_content_length(hs: Seq<(Seq<u8>, Seq<u8>)>) -> Option<u64> {
    match first_value(hs, content_length_name()) {
        Some(v) => spec_parse_dec(v),
        None => None,
    }
}

/// Walks the comma-separated elements of `v` from `from`, looking for
/// `tok` up to case and surrounding whitespace.
pub fn value_has_token(v: &[u8], from: usize, tok: &[u8]) -> (r: bool)
    requires
        from <= v@.len(),
    ensures
        r == has_token_from(v@, from as int, tok@),
    decreases v@.len() - from,
{
    let n = v.len();
    let mut end: usize = from;
    while end < n && v[end] != 44
        invariant
            from <= end <= n,
            n == v@.len(),
            forall|j: int| from <= j < end ==> v@[j] != 44,
        decreases n - end,
    {
        end = end + 1;
    }
    proof {
        lemma_comma_or_end_is(v@, from as int, end as int);
    }
    // trim the element in place
    let mut lo: usize = from;
    while lo < end && (v[lo] == 32 || v[lo] == 9)
        invariant
            from <= lo <= end <= n,
            n == v@.len(),
            trim_start_ows(v@.subrange(from as int, end as int)) == trim_start_ows(
                v@.subrange(lo as int, end as int),
            ),
        decreases end - lo,
    {
        proof {
            assert(v@.subrange(lo as int, end as int).skip(1) =~= v@.subrange(
                lo + 1 as int,
                end as int,
            ));
        }
        lo = lo + 1;
    }
    let mut hi: usize = end;
    while hi > lo && (v[hi - 1] == 32 || v[hi - 1] == 9)
        invariant
            from <= lo <= hi <= end <= n,
            n == v@.len(),
            trim_start_ows(v@.subrange(from as int, end as int)) == trim_start_ows(
                v@.subrange(lo as int, end as int),
            ),
            trim_end_ows(v@.subrange(lo as int, end as int)) == trim_end_ows(
                v@.subrange(lo as int, hi as int),
            ),
        decreases hi,
    {
        proof {
            assert(v@.subrange(lo as int, hi as int).drop_last() =~= v@.subrange(
                lo as int,
                hi - 1 as int,
            ));
        }
        hi = hi - 1;
    }
    proof {
        lemma_trim_fixed(v@, from as int, lo as int, hi as int, end as int);
    }
    let elem = crate::ascii::subvec(v, lo, hi);
    if eq_ignore_case(elem.as_slice(), tok) {
        return true;
    }
    if end == n {
        return false;
    }
    value_has_token(v, end + 1, tok)
}

/// After the two trimming scans nothing further is trimmed: the element
/// between `lo` and `hi` is the trimmed form of the element between
/// `from` and `end`.
proof fn lemma_trim_fixed(v: Seq<u8>, from: int, lo: int, hi: int, end: int)
    requires
        0 <= from <= lo <= hi <= end <= v.len(),
        trim_start_ows(v.subrange(from, end)) == trim_start_ows(v.subrange(lo, end)),
        trim_end_ows(v.subrange(lo, end)) == trim_end_ows(v.subrange(lo, hi)),
        lo < end ==> !is_ows(v[lo]),
        hi > lo ==> !is_ows(v[hi - 1]),
    ensures
        trim_ows(v.subrange(from, end)) == v.subrange(lo, hi),
{
    let sle = v.subrange(lo, end);
    let slh = v.subrange(lo, hi);
    if lo < end {
        assert(trim_start_ows(sle) == sle);
    } else {
        assert(sle.len() == 0);
        assert(trim_start_ows(sle) == sle);
    }
    // trim_end of the start-trimmed element
    assert(trim_ows(v.subrange(from, end)) == trim_end_ows(sle));
    if hi > lo {
        assert(!is_ows(slh.last()));
        assert(trim_end_ows(slh) == slh);
    } else {
        assert(slh.len() == 0);
        assert(trim_end_ows(slh) == slh);
    }
}

/// A scan that stopped at the first comma (or the end) computed
/// `comma_or_end`.
proof fn lemma_comma_or_end_is(v: Seq<u8>, from: int, end: int)
    requires
        0 <= from <= end <= v.len(),
        forall|j: int| from <= j < end ==> v[j] != 44,
        end < v.len() ==> v[end] == 44,
    ensures
        comma_or_end(v, from) == end,
    decreases end - from,
{
    if from < end {
        lemma_comma_or_end_is(v, from + 1, end);
    }
}

} // verus!
