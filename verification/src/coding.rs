//! Shreds of a FEC set: ordering them by type and index for recovery and
//! deshredding, finding a FEC set's erasure parameters, decoding stored
//! shreds and grouping them by FEC set.
use vstd::prelude::*;
use vstd::multiset::Multiset;
use base64::Engine as _;
use std::collections::HashMap;
use crate::types::{CodingHeader, ShredHeader, ShredType};
use crate::simple_rpc::standard_base64_encode;

verus! {

/// A shred: what the logic reads of it, and its serialized bytes.
#[derive(Debug)]
pub struct ShredEntry {
    pub header: ShredHeader,
    pub payload: Vec<u8>,
}

pub open spec fn is_data(e: ShredEntry) -> bool {
    e.header.shred_type == ShredType::Data
}

pub open spec fn is_coding(e: ShredEntry) -> bool {
    e.header.shred_type != ShredType::Data
}

pub open spec fn data_pred() -> spec_fn(ShredEntry) -> bool {
    |e: ShredEntry| is_data(e)
}

pub open spec fn coding_pred() -> spec_fn(ShredEntry) -> bool {
    |e: ShredEntry| is_coding(e)
}

/// `x` inserted into `s` after every entry whose index is not above its own.
pub open spec fn insert_by_index(s: Seq<ShredEntry>, x: ShredEntry) -> Seq<ShredEntry>
    decreases s.len(),
{
    if s.len() == 0 {
        seq![x]
    } else if s.last().header.index <= x.header.index {
        s.push(x)
    } else {
        insert_by_index(s.drop_last(), x).push(s.last())
    }
}

/// `s` stably sorted by shred index: entries with equal index keep their order.
pub open spec fn sort_by_index(s: Seq<ShredEntry>) -> Seq<ShredEntry>
    decreases s.len(),
{
    if s.len() == 0 {
        s
    } else {
        insert_by_index(sort_by_index(s.drop_last()), s.last())
    }
}

pub open spec fn sorted_by_index(s: Seq<ShredEntry>) -> bool {
    forall|i: int, j: int| 0 <= i <= j < s.len() ==> s[i].header.index <= s[j].header.index
}

/// The data shreds of `s`, then its coding shreds, each sorted by index.
pub open spec fn split_and_sort(s: Seq<ShredEntry>) -> (Seq<ShredEntry>, Seq<ShredEntry>) {
    (sort_by_index(s.filter(data_pred())), sort_by_index(s.filter(coding_pred())))
}

proof fn lemma_insert_at(s: Seq<ShredEntry>, x: ShredEntry, p: int)
    requires
        0 <= p <= s.len(),
        forall|q: int| p <= q < s.len() ==> s[q].header.index > x.header.index,
        p == 0 || s[p - 1].header.index <= x.header.index,
    ensures
        insert_by_index(s, x) == s.insert(p, x),
    decreases s.len(),
{
    if s.len() == 0 {
        assert(s.insert(p, x) =~= seq![x]);
    } else if p == s.len() {
        assert(s.insert(p, x) =~= s.push(x));
    } else {
        lemma_insert_at(s.drop_last(), x, p);
        assert(s.drop_last().insert(p, x).push(s.last()) =~= s.insert(p, x));
    }
}

/// Where `x` goes in `v` so that it follows every entry whose index is not above its own.
fn insertion_point(v: &Vec<ShredEntry>, x: &ShredEntry) -> (p: usize)
    ensures
        p <= v@.len(),
        forall|q: int| p <= q < v@.len() ==> v@[q].header.index > x.header.index,
        p == 0 || v@[p - 1].header.index <= x.header.index,
{
    let mut p = v.len();
    while p > 0 && v[p - 1].header.index > x.header.index
        invariant
            p <= v@.len(),
            forall|q: int| p <= q < v@.len() ==> v@[q].header.index > x.header.index,
        decreases p,
    {
        p = p - 1;
    }
    p
}

/// Splits shreds into data shreds and coding shreds, each stably sorted by
/// shred index.
pub fn sort_shreds_by_type(shreds: Vec<ShredEntry>) -> (r: (Vec<ShredEntry>, Vec<ShredEntry>))
    ensures
        (r.0@, r.1@) == split_and_sort(shreds@),
{
    let ghost orig = shreds@;
    let mut rest = shreds;
    let mut data_shreds: Vec<ShredEntry> = Vec::new();
    let mut coding_shreds: Vec<ShredEntry> = Vec::new();
    let mut i: usize = 0;
    let n = rest.len();
    proof {
        reveal(Seq::filter);
        assert(orig.take(0).filter(data_pred()) =~= Seq::<ShredEntry>::empty());
        assert(orig.take(0).filter(coding_pred()) =~= Seq::<ShredEntry>::empty());
    }
    while i < n
        invariant
            n == orig.len(),
            i <= n,
            rest@ == orig.skip(i as int),
            data_shreds@ == sort_by_index(orig.take(i as int).filter(data_pred())),
            coding_shreds@ == sort_by_index(orig.take(i as int).filter(coding_pred())),
        decreases n - i,
    {
        let s = rest.remove(0);
        proof {
            reveal(Seq::filter);
            assert(orig.take(i + 1).drop_last() =~= orig.take(i as int));
            assert(orig.take(i + 1).last() == s);
            assert(rest@ =~= orig.skip(i + 1));
        }
        let ghost t = orig.take(i + 1);
        let ghost fd = orig.take(i as int).filter(data_pred());
        let ghost fc = orig.take(i as int).filter(coding_pred());
        if s.header.shred_type == ShredType::Data {
            let p = insertion_point(&data_shreds, &s);
            proof {
                lemma_insert_at(data_shreds@, s, p as int);
                reveal(Seq::filter);
                assert(t.filter(data_pred()) == fd.push(s));
                assert(t.filter(coding_pred()) == fc);
                assert(fd.push(s).drop_last() =~= fd);
            }
            data_shreds.insert(p, s);
        } else {
            let p = insertion_point(&coding_shreds, &s);
            proof {
                lemma_insert_at(coding_shreds@, s, p as int);
                reveal(Seq::filter);
                assert(t.filter(coding_pred()) == fc.push(s));
                assert(t.filter(data_pred()) == fd);
                assert(fc.push(s).drop_last() =~= fc);
            }
            coding_shreds.insert(p, s);
        }
        i = i + 1;
    }
    proof {
        assert(orig.take(n as int) =~= orig);
    }
    (data_shreds, coding_shreds)
}

/// The shreds together with those that recovery produced, split and sorted
/// as `sort_shreds_by_type` does.
pub fn process_shreds_with_recovery(shreds: Vec<ShredEntry>, recovered: Vec<ShredEntry>) -> (r: (
    Vec<ShredEntry>,
    Vec<ShredEntry>,
))
    ensures
        (r.0@, r.1@) == split_and_sort(shreds@ + recovered@),
{
    let mut all_shreds = shreds;
    let mut recovered = recovered;
    all_shreds.append(&mut recovered);
    sort_shreds_by_type(all_shreds)
}

/// The coding header of the first coding shred of `s` that carries one.
pub open spec fn first_coding_header(s: Seq<ShredEntry>) -> Option<CodingHeader>
    decreases s.len(),
{
    if s.len() == 0 {
        None
    } else if is_coding(s[0]) && s[0].header.coding_header is Some {
        s[0].header.coding_header
    } else {
        first_coding_header(s.subrange(1, s.len() as int))
    }
}

/// The coding header of the first coding shred of `s`, if there is one.
pub open spec fn first_coding_shred_header(s: Seq<ShredEntry>) -> Option<CodingHeader>
    decreases s.len(),
{
    if s.len() == 0 {
        None
    } else if is_coding(s[0]) {
        s[0].header.coding_header
    } else {
        first_coding_shred_header(s.subrange(1, s.len() as int))
    }
}

/// Every header in `s` is as parsing produces it.
pub open spec fn headers_well_formed(s: Seq<ShredEntry>) -> bool {
    forall|i: int| 0 <= i < s.len() ==> (#[trigger] s[i]).header.well_formed()
}

proof fn lemma_first_coding_header_of_parsed(s: Seq<ShredEntry>)
    requires
        headers_well_formed(s),
    ensures
        first_coding_header(s) == first_coding_shred_header(s),
    decreases s.len(),
{
    if s.len() > 0 {
        let rest = s.subrange(1, s.len() as int);
        assert(s[0].header.well_formed());
        assert forall|i: int| 0 <= i < rest.len() implies (#[trigger] rest[i]).header.well_formed() by {
            assert(rest[i] == s[i + 1]);
        }
        lemma_first_coding_header_of_parsed(rest);
    }
}

/// The erasure parameters of a FEC set: the coding header of its first
/// coding shred, if it has one; for shreds as parsing produces them, the
/// header of the first coding shred.
pub fn get_coding_header_for_fec_set(shreds: &[ShredEntry]) -> (r: Option<CodingHeader>)
    ensures
        r == first_coding_header(shreds@),
        headers_well_formed(shreds@) ==> r == first_coding_shred_header(shreds@),
{
    proof {
        if headers_well_formed(shreds@) {
            lemma_first_coding_header_of_parsed(shreds@);
        }
    }
    let mut i: usize = 0;
    assert(shreds@.subrange(0, shreds@.len() as int) =~= shreds@);
    while i < shreds.len()
        invariant
            i <= shreds@.len(),
            first_coding_header(shreds@) == first_coding_header(shreds@.subrange(i as int, shreds@.len() as int)),
            headers_well_formed(shreds@) ==> first_coding_header(shreds@) == first_coding_shred_header(shreds@),
        decreases shreds@.len() - i,
    {
        let shred = &shreds[i];
        proof {
            let rest = shreds@.subrange(i as int, shreds@.len() as int);
            assert(rest[0] == shreds@[i as int]);
            assert(rest.subrange(1, rest.len() as int) =~= shreds@.subrange(i + 1, shreds@.len() as int));
        }
        if shred.header.shred_type != ShredType::Data {
            match shred.header.coding_header {
                Some(h) => {
                    return Some(h);
                },
                None => {},
            }
        }
        i = i + 1;
    }
    None
}

/// Why a stored shred could not be read back.
#[derive(Debug)]
pub enum CodingError {
    InvalidBase64(base64::DecodeError),
}

#[verifier::external_type_specification]
#[verifier::external_body]
pub struct ExDecodeError(base64::DecodeError);

/// What the standard base64 alphabet, with padding, decodes `text` to; `None`
/// when `text` is not valid base64.
pub uninterp spec fn standard_base64_decode(text: Seq<char>) -> Option<Seq<u8>>;

/// `base64::engine::general_purpose::STANDARD.decode`: the bytes that `text`
/// encodes, or the decoder's error when it encodes none; the padded standard
/// encoding of any bytes decodes back to those bytes.
#[verifier::external_body]
fn base64_decode(text: &str) -> (result: Result<Vec<u8>, base64::DecodeError>)
    ensures
        match result {
            Ok(bytes) => standard_base64_decode(text@) == Some(bytes@),
            Err(_) => standard_base64_decode(text@) is None,
        },
        forall|b: Seq<u8>| #[trigger] standard_base64_encode(b) == text@ ==> result is Ok && result.unwrap()@ == b,
{
    base64::engine::general_purpose::STANDARD.decode(text)
}

/// The serialized shred that a stored base64 text holds. Text that the
/// query interface produced for a shred decodes back to the shred's bytes.
pub fn decode_shred_data(data: &str) -> (r: Result<Vec<u8>, CodingError>)
    ensures
        match r {
            Ok(bytes) => standard_base64_decode(data@) == Some(bytes@),
            Err(CodingError::InvalidBase64(_)) => standard_base64_decode(data@) is None,
        },
        forall|b: Seq<u8>| #[trigger] standard_base64_encode(b) == data@ ==> r is Ok && r.unwrap()@ == b,
{
    match base64_decode(data) {
        Ok(bytes) => Ok(bytes),
        Err(e) => Err(CodingError::InvalidBase64(e)),
    }
}

/// The entries of `s` that belong to FEC set `fec`, in order.
pub open spec fn in_fec_set(s: Seq<ShredEntry>, fec: u32) -> Seq<ShredEntry> {
    s.filter(|e: ShredEntry| e.header.fec_set_index == fec)
}

/// Shreds grouped by FEC set index, each group in arrival order.
pub struct FecSetMap {
    sets: HashMap<u32, Vec<ShredEntry>>,
}

impl FecSetMap {
    /// The groups.
    pub closed spec fn groups(&self) -> Map<u32, Seq<ShredEntry>> {
        self.sets@.map_values(|v: Vec<ShredEntry>| v@)
    }

    /// No groups.
    pub fn new() -> (r: Self)
        ensures
            r.groups() == Map::<u32, Seq<ShredEntry>>::empty(),
    {
        let r = FecSetMap { sets: HashMap::new() };
        assert(r.groups() =~= Map::<u32, Seq<ShredEntry>>::empty());
        r
    }

    /// Appends `shred` to the group of its FEC set, starting the group if needed.
    pub fn add_shred(&mut self, shred: ShredEntry)
        ensures
            final(self).groups() == old(self).groups().insert(
                shred.header.fec_set_index,
                (if old(self).groups().contains_key(shred.header.fec_set_index) {
                    old(self).groups()[shred.header.fec_set_index]
                } else {
                    Seq::empty()
                }).push(shred),
            ),
    {
        broadcast use vstd::std_specs::hash::group_hash_axioms;
        let fec = shred.header.fec_set_index;
        let ghost old_groups = self.groups();
        let mut list = match self.sets.remove(&fec) {
            Some(v) => v,
            None => Vec::new(),
        };
        list.push(shred);
        self.sets.insert(fec, list);
        proof {
            assert(self.groups() =~= old_groups.insert(fec, self.sets@[fec]@));
        }
    }

    /// The group of FEC set `fec`, if there is one.
    pub fn get(&self, fec: u32) -> (r: Option<&Vec<ShredEntry>>)
        ensures
            match r {
                Some(v) => self.groups().contains_key(fec) && v@ == self.groups()[fec],
                None => !self.groups().contains_key(fec),
            },
    {
        broadcast use vstd::std_specs::hash::group_hash_axioms;
        self.sets.get(&fec)
    }

    /// The groups, as a map from FEC set index to shreds.
    pub fn into_map(self) -> (r: HashMap<u32, Vec<ShredEntry>>)
        ensures
            r@.map_values(|v: Vec<ShredEntry>| v@) == self.groups(),
    {
        self.sets
    }
}

/// Groups shreds by FEC set index, each group in the order the shreds come.
pub fn group_by_fec_set(shreds: Vec<ShredEntry>) -> (r: FecSetMap)
    ensures
        forall|fec: u32| #[trigger] r.groups().contains_key(fec) <==> in_fec_set(shreds@, fec).len() > 0,
        forall|fec: u32| #[trigger] r.groups().contains_key(fec) ==> r.groups()[fec] == in_fec_set(shreds@, fec),
{
    let ghost orig = shreds@;
    let mut rest = shreds;
    let mut map = FecSetMap::new();
    let n = rest.len();
    let mut i: usize = 0;
    while i < n
        invariant
            n == orig.len(),
            i <= n,
            rest@ == orig.skip(i as int),
            forall|fec: u32| #[trigger] map.groups().contains_key(fec) <==> in_fec_set(orig.take(i as int), fec).len() > 0,
            forall|fec: u32| #[trigger] map.groups().contains_key(fec) ==> map.groups()[fec] == in_fec_set(orig.take(i as int), fec),
        decreases n - i,
    {
        let s = rest.remove(0);
        let ghost before = map.groups();
        proof {
            assert(rest@ =~= orig.skip(i + 1));
            assert(orig.take(i + 1).drop_last() =~= orig.take(i as int));
            assert(orig.take(i + 1).last() == s);
        }
        map.add_shred(s);
        proof {
            reveal(Seq::filter);
            assert forall|fec: u32| #[trigger] map.groups().contains_key(fec) <==> in_fec_set(orig.take(i + 1), fec).len() > 0 by {
                if fec != s.header.fec_set_index {
                    assert(in_fec_set(orig.take(i + 1), fec) == in_fec_set(orig.take(i as int), fec));
                } else {
                    assert(in_fec_set(orig.take(i + 1), fec) == in_fec_set(orig.take(i as int), fec).push(s));
                }
            }
            assert forall|fec: u32| #[trigger] map.groups().contains_key(fec) implies map.groups()[fec] == in_fec_set(orig.take(i + 1), fec) by {
                if fec != s.header.fec_set_index {
                    assert(in_fec_set(orig.take(i + 1), fec) == in_fec_set(orig.take(i as int), fec));
                } else {
                    assert(in_fec_set(orig.take(i + 1), fec) == in_fec_set(orig.take(i as int), fec).push(s));
                    if !before.contains_key(fec) {
                        assert(in_fec_set(orig.take(i as int), fec).len() == 0);
                        assert(in_fec_set(orig.take(i as int), fec) =~= Seq::<ShredEntry>::empty());
                    }
                }
            }
        }
        i = i + 1;
    }
    proof {
        assert(orig.take(n as int) =~= orig);
    }
    map
}

proof fn lemma_insert_by_index_props(s: Seq<ShredEntry>, x: ShredEntry)
    ensures
        sorted_by_index(s) ==> sorted_by_index(insert_by_index(s, x)),
        insert_by_index(s, x).to_multiset() == s.to_multiset().insert(x),
        insert_by_index(s, x).len() == s.len() + 1,
    decreases s.len(),
{
    broadcast use vstd::seq_lib::group_to_multiset_ensures;
    if s.len() == 0 {
        assert(seq![x] =~= Seq::<ShredEntry>::empty().push(x));
        assert(Seq::<ShredEntry>::empty().to_multiset() =~= Multiset::empty());
    } else if s.last().header.index <= x.header.index {
    } else {
        let d = s.drop_last();
        lemma_insert_by_index_props(d, x);
        assert(d.push(s.last()) =~= s);
        let r = insert_by_index(d, x);
        if sorted_by_index(s) {
            assert forall|i: int, j: int| 0 <= i <= j < r.len() implies r[i].header.index <= r[j].header.index by {
                if i < j {
                    r.to_multiset_ensures();
                    assert(r.to_multiset().count(r[i]) > 0);
                    assert(r.contains(r[i]));
                }
            }
            assert forall|i: int, j: int| 0 <= i <= j < r.push(s.last()).len() implies r.push(s.last())[i].header.index
                <= r.push(s.last())[j].header.index by {
                if j == r.len() && i < j {
                    let e = r[i];
                    assert(r.contains(e));
                    assert(r.to_multiset().count(e) > 0);
                    assert(d.to_multiset().insert(x).count(e) > 0);
                    if e != x {
                        assert(d.to_multiset().count(e) > 0);
                        assert(d.contains(e));
                        let k = choose|k: int| 0 <= k < d.len() && d[k] == e;
                        assert(s[k] == e);
                    }
                }
            }
        }
    }
}

/// Sorting by index yields a sequence sorted by index that holds exactly the
/// entries it was given.
pub proof fn lemma_sort_by_index_sorted_permutation(s: Seq<ShredEntry>)
    ensures
        sorted_by_index(sort_by_index(s)),
        sort_by_index(s).to_multiset() == s.to_multiset(),
    decreases s.len(),
{
    broadcast use vstd::seq_lib::group_to_multiset_ensures;
    if s.len() == 0 {
    } else {
        lemma_sort_by_index_sorted_permutation(s.drop_last());
        lemma_insert_by_index_props(sort_by_index(s.drop_last()), s.last());
        assert(s.drop_last().push(s.last()) =~= s);
    }
}

proof fn lemma_filter_split(s: Seq<ShredEntry>)
    ensures
        s.filter(data_pred()).to_multiset().add(s.filter(coding_pred()).to_multiset()) == s.to_multiset(),
    decreases s.len(),
{
    broadcast use vstd::seq_lib::group_to_multiset_ensures;
    reveal(Seq::filter);
    if s.len() == 0 {
        assert(s.filter(data_pred()) =~= s);
        assert(s.filter(coding_pred()) =~= s);
        assert(s.to_multiset() =~= Multiset::empty());
        assert(s.to_multiset().add(s.to_multiset()) =~= s.to_multiset());
    } else {
        lemma_filter_split(s.drop_last());
        assert(s.drop_last().push(s.last()) =~= s);
        let a = s.drop_last().filter(data_pred()).to_multiset();
        let b = s.drop_last().filter(coding_pred()).to_multiset();
        assert(a.insert(s.last()).add(b) =~= a.add(b).insert(s.last()));
        assert(a.add(b.insert(s.last())) =~= a.add(b).insert(s.last()));
    }
}

/// Splitting and sorting keeps every shred exactly once: the data part holds
/// only data shreds, the coding part only coding shreds, each part is sorted
/// by index, and together they hold exactly the input.
pub proof fn lemma_split_and_sort(s: Seq<ShredEntry>)
    ensures
        sorted_by_index(split_and_sort(s).0),
        sorted_by_index(split_and_sort(s).1),
        forall|i: int| 0 <= i < split_and_sort(s).0.len() ==> is_data(#[trigger] split_and_sort(s).0[i]),
        forall|i: int| 0 <= i < split_and_sort(s).1.len() ==> is_coding(#[trigger] split_and_sort(s).1[i]),
        split_and_sort(s).0.to_multiset().add(split_and_sort(s).1.to_multiset()) == s.to_multiset(),
{
    broadcast use vstd::seq_lib::group_to_multiset_ensures;
    let fd = s.filter(data_pred());
    let fc = s.filter(coding_pred());
    lemma_sort_by_index_sorted_permutation(fd);
    lemma_sort_by_index_sorted_permutation(fc);
    lemma_filter_split(s);
    let d = sort_by_index(fd);
    let c = sort_by_index(fc);
    assert forall|i: int| 0 <= i < d.len() implies is_data(#[trigger] d[i]) by {
        assert(d.contains(d[i]));
        assert(fd.to_multiset().count(d[i]) > 0);
        assert(fd.contains(d[i]));
        let k = choose|k: int| 0 <= k < fd.len() && fd[k] == d[i];
        s.lemma_filter_pred(data_pred(), k);
    }
    assert forall|i: int| 0 <= i < c.len() implies is_coding(#[trigger] c[i]) by {
        assert(c.contains(c[i]));
        assert(fc.to_multiset().count(c[i]) > 0);
        assert(fc.contains(c[i]));
        let k = choose|k: int| 0 <= k < fc.len() && fc[k] == c[i];
        s.lemma_filter_pred(coding_pred(), k);
    }
}

/// Sorting keeps a sequence that is already sorted by index exactly as it is;
/// in particular shreds with equal indices keep their order.
pub proof fn lemma_sort_keeps_sorted(s: Seq<ShredEntry>)
    requires
        sorted_by_index(s),
    ensures
        sort_by_index(s) == s,
    decreases s.len(),
{
    if s.len() > 0 {
        let d = s.drop_last();
        assert(sorted_by_index(d));
        lemma_sort_keeps_sorted(d);
        assert(d.push(s.last()) =~= s);
        if d.len() > 0 {
            assert(d.last() == s[s.len() - 2]);
        } else {
            assert(seq![s.last()] =~= s);
        }
    }
}

proof fn lemma_filter_all(s: Seq<ShredEntry>, p: spec_fn(ShredEntry) -> bool)
    requires
        forall|i: int| 0 <= i < s.len() ==> p(#[trigger] s[i]),
    ensures
        s.filter(p) == s,
    decreases s.len(),
{
    reveal(Seq::filter);
    if s.len() > 0 {
        lemma_filter_all(s.drop_last(), p);
        assert(s.drop_last().push(s.last()) =~= s);
    }
}

proof fn lemma_filter_none(s: Seq<ShredEntry>, p: spec_fn(ShredEntry) -> bool)
    requires
        forall|i: int| 0 <= i < s.len() ==> !p(#[trigger] s[i]),
    ensures
        s.filter(p) == Seq::<ShredEntry>::empty(),
    decreases s.len(),
{
    reveal(Seq::filter);
    if s.len() > 0 {
        lemma_filter_none(s.drop_last(), p);
    } else {
        assert(s =~= Seq::<ShredEntry>::empty());
    }
}

/// Splitting and sorting the concatenated output of a split and sort gives
/// that output back unchanged.
pub proof fn lemma_split_and_sort_idempotent(s: Seq<ShredEntry>)
    ensures
        split_and_sort(split_and_sort(s).0 + split_and_sort(s).1) == split_and_sort(s),
{
    let d = split_and_sort(s).0;
    let c = split_and_sort(s).1;
    lemma_split_and_sort(s);
    Seq::filter_distributes_over_add(d, c, data_pred());
    Seq::filter_distributes_over_add(d, c, coding_pred());
    lemma_filter_all(d, data_pred());
    lemma_filter_none(c, data_pred());
    lemma_filter_all(c, coding_pred());
    lemma_filter_none(d, coding_pred());
    assert((d + c).filter(data_pred()) =~= d);
    assert((d + c).filter(coding_pred()) =~= c);
    lemma_sort_keeps_sorted(d);
    lemma_sort_keeps_sorted(c);
}

} // verus!
