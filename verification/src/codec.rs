//! Deterministic CBOR encoding (the DAG-CBOR subset that PLC operations use).
//!
//! Operations are hashed over their canonical CBOR bytes, so the encoding is
//! pinned down to the byte: minimal-length headers, definite lengths
//! everywhere, and map entries sorted by their encoded form (which for text
//! keys means shorter keys first, then bytewise).

use vstd::prelude::*;
use vstd::string::StringExecFns;
use vstd::utf8::encode_utf8;

verus! {

// ---------------------------------------------------------------------------
// Lexicographic order on byte strings
// ---------------------------------------------------------------------------

/// Strict lexicographic order on byte strings: a proper prefix sorts first,
/// otherwise the first differing byte decides.
pub open spec fn bytes_lt(a: Seq<u8>, b: Seq<u8>) -> bool
    decreases a.len(),
{
    if b.len() == 0 {
        false
    } else if a.len() == 0 {
        true
    } else if a[0] != b[0] {
        a[0] < b[0]
    } else {
        bytes_lt(a.drop_first(), b.drop_first())
    }
}

proof fn lemma_bytes_lt_step(a: Seq<u8>, b: Seq<u8>, i: int)
    requires
        0 <= i,
        i < a.len(),
        i < b.len(),
        forall|j: int| 0 <= j < i ==> a[j] == b[j],
    ensures
        bytes_lt(a, b) == if a[i] != b[i] {
            a[i] < b[i]
        } else {
            bytes_lt(a.skip(i + 1), b.skip(i + 1))
        },
    decreases i,
{
    if i == 0 {
        assert(a.skip(1) == a.drop_first());
        assert(b.skip(1) == b.drop_first());
    } else {
        lemma_bytes_lt_step(a.drop_first(), b.drop_first(), i - 1);
        assert(a.drop_first().skip(i) == a.skip(i + 1));
        assert(b.drop_first().skip(i) == b.skip(i + 1));
    }
}

proof fn lemma_bytes_lt_prefix(a: Seq<u8>, b: Seq<u8>, i: int)
    requires
        0 <= i,
        i == a.len() || i == b.len(),
        i <= a.len(),
        i <= b.len(),
        forall|j: int| 0 <= j < i ==> a[j] == b[j],
    ensures
        bytes_lt(a, b) == (a.len() < b.len()),
    decreases i,
{
    if i == 0 {
    } else {
        lemma_bytes_lt_prefix(a.drop_first(), b.drop_first(), i - 1);
    }
}

/// Decides `bytes_lt` on two byte vectors.
pub fn vec_bytes_lt(a: &Vec<u8>, b: &Vec<u8>) -> (r: bool)
    ensures
        r == bytes_lt(a@, b@),
{
    let mut i: usize = 0;
    loop
        invariant
            i <= a.len(),
            i <= b.len(),
            forall|j: int| 0 <= j < i ==> a@[j] == b@[j],
        decreases a.len() - i,
    {
        if i == a.len() || i == b.len() {
            proof {
                lemma_bytes_lt_prefix(a@, b@, i as int);
            }
            return a.len() < b.len();
        }
        if a[i] != b[i] {
            proof {
                lemma_bytes_lt_step(a@, b@, i as int);
            }
            return a[i] < b[i];
        }
        i = i + 1;
    }
}

// ---------------------------------------------------------------------------
// CBOR primitive encodings
// ---------------------------------------------------------------------------

/// Header for a CBOR item of the given major type whose argument (a length,
/// or the value itself for integers) is `n`, in minimal-length form.
pub open spec fn spec_cbor_header(major: u8, n: nat) -> Seq<u8>
    recommends
        major < 8,
        n <= u64::MAX,
{
    let m = (major as nat) * 0x20;
    if n < 24 {
        seq![(m + n) as u8]
    } else if n <= 0xff {
        seq![(m + 24) as u8, n as u8]
    } else if n <= 0xffff {
        seq![(m + 25) as u8, (n / 0x100) as u8, (n % 0x100) as u8]
    } else if n <= 0xffff_ffff {
        seq![
            (m + 26) as u8,
            (n / 0x100_0000) as u8,
            ((n / 0x1_0000) % 0x100) as u8,
            ((n / 0x100) % 0x100) as u8,
            (n % 0x100) as u8,
        ]
    } else {
        seq![
            (m + 27) as u8,
            (n / 0x100_0000_0000_0000) as u8,
            ((n / 0x1_0000_0000_0000) % 0x100) as u8,
            ((n / 0x100_0000_0000) % 0x100) as u8,
            ((n / 0x1_0000_0000) % 0x100) as u8,
            ((n / 0x100_0000) % 0x100) as u8,
            ((n / 0x1_0000) % 0x100) as u8,
            ((n / 0x100) % 0x100) as u8,
            (n % 0x100) as u8,
        ]
    }
}

/// Appends the header for major type `major` with argument `n` to `out`.
pub fn cbor_header(major: u8, n: u64, out: &mut Vec<u8>)
    requires
        major < 8,
    ensures
        final(out)@ == old(out)@ + spec_cbor_header(major, n as nat),
{
    let m: u8 = major * 0x20;
    if n < 24 {
        out.push(m + (n as u8));
        assert(final(out)@ == old(out)@ + spec_cbor_header(major, n as nat));
    } else if n <= 0xff {
        out.push(m + 24);
        out.push(n as u8);
        assert(final(out)@ == old(out)@ + spec_cbor_header(major, n as nat));
    } else if n <= 0xffff {
        out.push(m + 25);
        out.push((n / 0x100) as u8);
        out.push((n % 0x100) as u8);
        assert(final(out)@ == old(out)@ + spec_cbor_header(major, n as nat));
    } else if n <= 0xffff_ffff {
        out.push(m + 26);
        out.push((n / 0x100_0000) as u8);
        out.push(((n / 0x1_0000) % 0x100) as u8);
        out.push(((n / 0x100) % 0x100) as u8);
        out.push((n % 0x100) as u8);
        assert(final(out)@ == old(out)@ + spec_cbor_header(major, n as nat));
    } else {
        out.push(m + 27);
        out.push((n / 0x100_0000_0000_0000) as u8);
        out.push(((n / 0x1_0000_0000_0000) % 0x100) as u8);
        out.push(((n / 0x100_0000_0000) % 0x100) as u8);
        out.push(((n / 0x1_0000_0000) % 0x100) as u8);
        out.push(((n / 0x100_0000) % 0x100) as u8);
        out.push(((n / 0x1_0000) % 0x100) as u8);
        out.push(((n / 0x100) % 0x100) as u8);
        out.push((n % 0x100) as u8);
        assert(final(out)@ == old(out)@ + spec_cbor_header(major, n as nat));
    }
}

/// Encoding of a text string: major type 3 with the UTF-8 byte length,
/// followed by the UTF-8 bytes.
pub open spec fn spec_cbor_text(s: Seq<char>) -> Seq<u8> {
    spec_cbor_header(3, encode_utf8(s).len()) + encode_utf8(s)
}

/// Appends the encoding of a text string to `out`.
pub fn cbor_text(s: &str, out: &mut Vec<u8>)
    ensures
        final(out)@ == old(out)@ + spec_cbor_text(s@),
{
    let bytes = s.as_bytes();
    cbor_header(3, bytes.len() as u64, out);
    out.extend_from_slice(bytes);
    assert(final(out)@ == old(out)@ + spec_cbor_text(s@));
}

/// Encoding of `null`.
pub open spec fn spec_cbor_null() -> Seq<u8> {
    seq![0xf6u8]
}

/// Encoding of a boolean.
pub open spec fn spec_cbor_bool(b: bool) -> Seq<u8> {
    if b {
        seq![0xf5u8]
    } else {
        seq![0xf4u8]
    }
}

/// Encoding of an integer: major type 0 for non-negative values, major
/// type 1 (holding `-1 - i`) for negative ones.
pub open spec fn spec_cbor_int(i: int) -> Seq<u8>
    recommends
        i64::MIN <= i <= i64::MAX,
{
    if i >= 0 {
        spec_cbor_header(0, i as nat)
    } else {
        spec_cbor_header(1, (-1 - i) as nat)
    }
}

// ---------------------------------------------------------------------------
// Self-describing CBOR values (used for the unrecognized fields that change
// operations must carry through byte-exactly)
// ---------------------------------------------------------------------------

/// A CBOR value, without floats or tags: what a PLC operation may carry in
/// fields this crate does not recognize.
#[derive(Debug)]
pub enum CborValue {
    Null,
    Bool(bool),
    Int(i64),
    Text(String),
    Bytes(Vec<u8>),
    Array(Vec<CborValue>),
    Object(Vec<(String, CborValue)>),
}

/// The mathematical shape of a [`CborValue`].
#[verifier::ext_equal]
pub enum CborValueV {
    Null,
    Bool(bool),
    Int(int),
    Text(Seq<char>),
    Bytes(Seq<u8>),
    Array(Seq<CborValueV>),
    Object(Seq<(Seq<char>, CborValueV)>),
}

pub open spec fn cbor_view(v: CborValue) -> CborValueV
    decreases v,
{
    match v {
        CborValue::Null => CborValueV::Null,
        CborValue::Bool(b) => CborValueV::Bool(b),
        CborValue::Int(i) => CborValueV::Int(i as int),
        CborValue::Text(s) => CborValueV::Text(s@),
        CborValue::Bytes(b) => CborValueV::Bytes(b@),
        CborValue::Array(items) => CborValueV::Array(cbor_view_seq(items@)),
        CborValue::Object(entries) => CborValueV::Object(cbor_view_entries(entries@)),
    }
}

pub open spec fn cbor_view_seq(items: Seq<CborValue>) -> Seq<CborValueV>
    decreases items,
{
    if items.len() == 0 {
        Seq::empty()
    } else {
        seq![cbor_view(items[0])] + cbor_view_seq(items.drop_first())
    }
}

pub open spec fn cbor_view_entries(entries: Seq<(String, CborValue)>) -> Seq<
    (Seq<char>, CborValueV),
>
    decreases entries,
{
    if entries.len() == 0 {
        Seq::empty()
    } else {
        seq![(entries[0].0@, cbor_view(entries[0].1))] + cbor_view_entries(entries.drop_first())
    }
}

impl View for CborValue {
    type V = CborValueV;

    open spec fn view(&self) -> CborValueV {
        cbor_view(*self)
    }
}

impl DeepView for CborValue {
    type V = CborValueV;

    open spec fn deep_view(&self) -> CborValueV {
        cbor_view(*self)
    }
}

pub proof fn lemma_cbor_view_seq_index(items: Seq<CborValue>, i: int)
    requires
        0 <= i < items.len(),
    ensures
        cbor_view_seq(items).len() == items.len(),
        cbor_view_seq(items)[i] == cbor_view(items[i]),
    decreases items.len(),
{
    lemma_cbor_view_seq_len(items);
    if i > 0 {
        lemma_cbor_view_seq_index(items.drop_first(), i - 1);
    }
}

pub proof fn lemma_cbor_view_seq_len(items: Seq<CborValue>)
    ensures
        cbor_view_seq(items).len() == items.len(),
    decreases items.len(),
{
    if items.len() > 0 {
        lemma_cbor_view_seq_len(items.drop_first());
    }
}

pub proof fn lemma_cbor_view_entries_index(entries: Seq<(String, CborValue)>, i: int)
    requires
        0 <= i < entries.len(),
    ensures
        cbor_view_entries(entries).len() == entries.len(),
        cbor_view_entries(entries)[i] == (entries[i].0@, cbor_view(entries[i].1)),
    decreases entries.len(),
{
    lemma_cbor_view_entries_len(entries);
    if i > 0 {
        lemma_cbor_view_entries_index(entries.drop_first(), i - 1);
    }
}

pub proof fn lemma_cbor_view_entries_len(entries: Seq<(String, CborValue)>)
    ensures
        cbor_view_entries(entries).len() == entries.len(),
    decreases entries.len(),
{
    if entries.len() > 0 {
        lemma_cbor_view_entries_len(entries.drop_first());
    }
}

// ---------------------------------------------------------------------------
// Sorted map entries
// ---------------------------------------------------------------------------

/// Inserts an encoded map entry before the first strictly greater one, as a
/// canonical CBOR map sorts its entries by their encoded bytes.
pub open spec fn spec_insert_enc(sorted: Seq<Seq<u8>>, x: Seq<u8>) -> Seq<Seq<u8>>
    decreases sorted.len(),
{
    if sorted.len() == 0 {
        seq![x]
    } else if bytes_lt(x, sorted[0]) {
        seq![x] + sorted
    } else {
        seq![sorted[0]] + spec_insert_enc(sorted.drop_first(), x)
    }
}

/// Insertion sort of encoded map entries, processed back to front.
pub open spec fn spec_sort_encs(s: Seq<Seq<u8>>) -> Seq<Seq<u8>>
    decreases s.len(),
{
    if s.len() == 0 {
        Seq::empty()
    } else {
        spec_insert_enc(spec_sort_encs(s.drop_first()), s[0])
    }
}

/// Concatenation of a sequence of byte strings.
pub open spec fn spec_concat_encs(s: Seq<Seq<u8>>) -> Seq<u8>
    decreases s.len(),
{
    if s.len() == 0 {
        Seq::empty()
    } else {
        s[0] + spec_concat_encs(s.drop_first())
    }
}

pub proof fn lemma_concat_encs_take(s: Seq<Seq<u8>>, i: int)
    requires
        0 <= i < s.len(),
    ensures
        spec_concat_encs(s.take(i + 1)) =~= spec_concat_encs(s.take(i)) + s[i],
    decreases i,
{
    if i == 0 {
        assert(s.take(1) =~= seq![s[0]]);
        assert(s.take(1).drop_first() =~= Seq::<Seq<u8>>::empty());
        assert(s.take(0) =~= Seq::<Seq<u8>>::empty());
        assert(s.take(1)[0] == s[0]);
    } else {
        lemma_concat_encs_take(s.drop_first(), i - 1);
        assert(s.take(i + 1).drop_first() =~= s.drop_first().take(i));
        assert(s.take(i).drop_first() =~= s.drop_first().take(i - 1));
        assert(s.take(i + 1)[0] == s[0]);
        assert(s.take(i)[0] == s[0]);
        assert(s.drop_first()[i - 1] == s[i]);
    }
}

proof fn lemma_insert_enc_at(s: Seq<Seq<u8>>, x: Seq<u8>, j: int)
    requires
        0 <= j <= s.len(),
        forall|k: int| 0 <= k < j ==> !bytes_lt(x, s[k]),
        j == s.len() || bytes_lt(x, s[j]),
    ensures
        spec_insert_enc(s, x) == s.insert(j, x),
    decreases j,
{
    if s.len() == 0 {
        assert(s.insert(0, x) =~= seq![x]);
    } else if j == 0 {
        assert(s.insert(0, x) =~= seq![x] + s);
    } else {
        lemma_insert_enc_at(s.drop_first(), x, j - 1);
        assert(s.insert(j, x) =~= seq![s[0]] + s.drop_first().insert(j - 1, x));
    }
}

/// Inserts one encoded entry into a vector, keeping `spec_insert_enc` order.
fn insert_enc(sorted: &mut Vec<Vec<u8>>, x: Vec<u8>)
    ensures
        final(sorted).deep_view() == spec_insert_enc(old(sorted).deep_view(), x@),
{
    let ghost s = old(sorted).deep_view();
    let mut j: usize = 0;
    loop
        invariant
            *sorted == *old(sorted),
            j <= sorted.len(),
            s == sorted.deep_view(),
            s.len() == sorted@.len(),
            forall|k: int| 0 <= k < s.len() ==> s[k] == sorted@[k]@,
            forall|k: int| 0 <= k < j ==> !bytes_lt(x@, s[k]),
        decreases sorted.len() - j,
    {
        proof {
            assert forall|k: int| 0 <= k < s.len() implies s[k] == sorted@[k]@ by {
                assert(sorted.deep_view()[k] == sorted@[k].deep_view());
                assert(sorted@[k].deep_view() =~= sorted@[k]@);
            }
        }
        let hit = j == sorted.len() || vec_bytes_lt(&x, &sorted[j]);
        if hit {
            proof {
                lemma_insert_enc_at(s, x@, j as int);
            }
            let ghost pre = sorted@;
            sorted.insert(j, x);
            proof {
                assert(sorted@ == pre.insert(j as int, x));
                assert forall|k: int| 0 <= k < sorted@.len() implies sorted.deep_view()[k]
                    == sorted@[k]@ by {
                    assert(sorted.deep_view()[k] == sorted@[k].deep_view());
                    assert(sorted@[k].deep_view() =~= sorted@[k]@);
                }
                assert(sorted.deep_view() =~= s.insert(j as int, x@));
            }
            return ;
        }
        j = j + 1;
    }
}

/// Sorts encoded map entries into canonical order.
fn sort_encs(input: Vec<Vec<u8>>) -> (r: Vec<Vec<u8>>)
    ensures
        r.deep_view() == spec_sort_encs(input.deep_view()),
{
    let ghost orig = input.deep_view();
    let mut input = input;
    let mut out: Vec<Vec<u8>> = Vec::new();
    proof {
        assert(orig.take(input.len() as int) =~= orig);
        assert(orig.skip(input.len() as int) =~= Seq::<Seq<u8>>::empty());
        assert(out.deep_view() =~= Seq::<Seq<u8>>::empty());
    }
    while input.len() > 0
        invariant
            input.len() <= orig.len(),
            input.deep_view() == orig.take(input.len() as int),
            out.deep_view() == spec_sort_encs(orig.skip(input.len() as int)),
        decreases input.len(),
    {
        let ghost n = input.len() as int;
        let ghost pre = input.deep_view();
        let ghost pre_v = input@;
        proof {
            assert(pre.len() == pre_v.len());
            assert forall|k: int| 0 <= k < pre_v.len() implies pre[k] == pre_v[k]@ by {
                assert(input.deep_view()[k] == input@[k].deep_view());
                assert(input@[k].deep_view() =~= input@[k]@);
            }
        }
        let x_opt = input.pop();
        let x = x_opt.unwrap();
        proof {
            assert(input@ == pre_v.drop_last());
            assert(x == pre_v.last());
            assert forall|k: int| 0 <= k < input@.len() implies input.deep_view()[k]
                == input@[k]@ by {
                assert(input.deep_view()[k] == input@[k].deep_view());
                assert(input@[k].deep_view() =~= input@[k]@);
            }
            assert(input.deep_view() =~= orig.take(n - 1));
            assert(x@ == pre[n - 1]);
            assert(x@ == orig[n - 1]);
            assert(orig.skip(n - 1).drop_first() =~= orig.skip(n));
            assert(orig.skip(n - 1)[0] == orig[n - 1]);
        }
        insert_enc(&mut out, x);
        proof {
            assert(out.deep_view() == spec_sort_encs(orig.skip(n - 1)));
        }
    }
    proof {
        assert(input.deep_view() =~= Seq::<Seq<u8>>::empty());
        assert(orig.skip(0) =~= orig);
        assert(orig.take(0) =~= Seq::<Seq<u8>>::empty());
        assert(input.len() == input.deep_view().len());
    }
    out
}

// ---------------------------------------------------------------------------
// Encoding of CBOR values
// ---------------------------------------------------------------------------

pub open spec fn spec_encode_value(v: CborValueV) -> Seq<u8>
    decreases v,
{
    match v {
        CborValueV::Null => spec_cbor_null(),
        CborValueV::Bool(b) => spec_cbor_bool(b),
        CborValueV::Int(i) => spec_cbor_int(i),
        CborValueV::Text(s) => spec_cbor_text(s),
        CborValueV::Bytes(b) => spec_cbor_header(2, b.len()) + b,
        CborValueV::Array(items) => spec_cbor_header(4, items.len()) + spec_encode_items(items),
        CborValueV::Object(entries) => spec_encode_map_from_encs(spec_map_entry_encs(entries)),
    }
}

pub open spec fn spec_encode_items(items: Seq<CborValueV>) -> Seq<u8>
    decreases items,
{
    if items.len() == 0 {
        Seq::empty()
    } else {
        spec_encode_value(items[0]) + spec_encode_items(items.drop_first())
    }
}

/// Encoding of one map entry: the text key followed by the value.
pub open spec fn spec_entry_enc(key: Seq<char>, val_enc: Seq<u8>) -> Seq<u8> {
    spec_cbor_text(key) + val_enc
}

pub open spec fn spec_map_entry_encs(entries: Seq<(Seq<char>, CborValueV)>) -> Seq<Seq<u8>>
    decreases entries,
{
    if entries.len() == 0 {
        Seq::empty()
    } else {
        seq![spec_entry_enc(entries[0].0, spec_encode_value(entries[0].1))] + spec_map_entry_encs(
            entries.drop_first(),
        )
    }
}

/// Encoding of a map from already-encoded entries: the header, then the
/// entries in canonical order.
pub open spec fn spec_encode_map_from_encs(encs: Seq<Seq<u8>>) -> Seq<u8> {
    spec_cbor_header(5, encs.len()) + spec_concat_encs(spec_sort_encs(encs))
}

pub open spec fn spec_encode_map(entries: Seq<(Seq<char>, CborValueV)>) -> Seq<u8> {
    spec_encode_map_from_encs(spec_map_entry_encs(entries))
}

pub proof fn lemma_map_entry_encs_take(entries: Seq<(Seq<char>, CborValueV)>, i: int)
    requires
        0 <= i < entries.len(),
    ensures
        spec_map_entry_encs(entries.take(i)).len() == i,
        spec_map_entry_encs(entries.take(i + 1)) == spec_map_entry_encs(entries.take(i)).push(
            spec_entry_enc(entries[i].0, spec_encode_value(entries[i].1)),
        ),
    decreases i,
{
    lemma_map_entry_encs_len(entries.take(i));
    if i == 0 {
        assert(entries.take(1)[0] == entries[0]);
        assert(entries.take(1).len() == 1);
        assert(entries.take(1).drop_first() =~= Seq::<(Seq<char>, CborValueV)>::empty());
        assert(entries.take(0) =~= Seq::<(Seq<char>, CborValueV)>::empty());
        assert(spec_map_entry_encs(entries.take(1)) =~= spec_map_entry_encs(entries.take(0)).push(
            spec_entry_enc(entries[0].0, spec_encode_value(entries[0].1)),
        ));
    } else {
        lemma_map_entry_encs_take(entries.drop_first(), i - 1);
        assert(entries.take(i + 1).drop_first() =~= entries.drop_first().take(i));
        assert(entries.take(i).drop_first() =~= entries.drop_first().take(i - 1));
        assert(entries.take(i + 1)[0] == entries[0]);
        assert(entries.take(i)[0] == entries[0]);
        assert(entries.drop_first()[i - 1] == entries[i]);
        assert(spec_map_entry_encs(entries.take(i + 1)) =~= spec_map_entry_encs(entries.take(
            i,
        )).push(spec_entry_enc(entries[i].0, spec_encode_value(entries[i].1))));
    }
}

pub proof fn lemma_map_entry_encs_len(entries: Seq<(Seq<char>, CborValueV)>)
    ensures
        spec_map_entry_encs(entries).len() == entries.len(),
    decreases entries.len(),
{
    if entries.len() > 0 {
        lemma_map_entry_encs_len(entries.drop_first());
    }
}

/// Appends the canonical map encoding built from per-entry encodings.
pub fn cbor_map_from_encs(encs: Vec<Vec<u8>>, out: &mut Vec<u8>)
    ensures
        final(out)@ == old(out)@ + spec_encode_map_from_encs(encs.deep_view()),
{
    let ghost e = encs.deep_view();
    let n = encs.len();
    cbor_header(5, n as u64, out);
    let sorted = sort_encs(encs);
    let ghost sv = sorted.deep_view();
    proof {
        lemma_sort_encs_len(e);
        assert(sv.take(0) =~= Seq::<Seq<u8>>::empty());
    }
    let mut i: usize = 0;
    while i < sorted.len()
        invariant
            sorted.deep_view() == sv,
            sorted.len() == sv.len(),
            i <= sorted.len(),
            out@ == old(out)@ + spec_cbor_header(5, e.len()) + spec_concat_encs(sv.take(i as int)),
        decreases sorted.len() - i,
    {
        proof {
            lemma_concat_encs_take(sv, i as int);
            assert(sorted.deep_view()[i as int] == sorted@[i as int].deep_view());
            assert(sorted@[i as int].deep_view() =~= sorted@[i as int]@);
        }
        out.extend_from_slice(sorted[i].as_slice());
        i = i + 1;
    }
    proof {
        assert(sv.take(sv.len() as int) =~= sv);
        assert(final(out)@ == old(out)@ + spec_encode_map_from_encs(e));
    }
}

pub proof fn lemma_sort_encs_len(s: Seq<Seq<u8>>)
    ensures
        spec_sort_encs(s).len() == s.len(),
    decreases s.len(),
{
    if s.len() > 0 {
        lemma_sort_encs_len(s.drop_first());
        lemma_insert_enc_len(spec_sort_encs(s.drop_first()), s[0]);
    }
}

proof fn lemma_insert_enc_len(s: Seq<Seq<u8>>, x: Seq<u8>)
    ensures
        spec_insert_enc(s, x).len() == s.len() + 1,
    decreases s.len(),
{
    if s.len() > 0 && !bytes_lt(x, s[0]) {
        lemma_insert_enc_len(s.drop_first(), x);
    }
}

/// Pushes a value, with the vector's deep view kept in step.
pub fn push_deep<T: DeepView>(v: &mut Vec<T>, x: T)
    ensures
        final(v).deep_view() == old(v).deep_view().push(x.deep_view()),
        final(v)@ == old(v)@.push(x),
{
    let ghost pre_deep = v.deep_view();
    let ghost pre_v = v@;
    proof {
        assert forall|k: int| 0 <= k < pre_v.len() implies pre_deep[k] == pre_v[k].deep_view() by {
            assert(v.deep_view()[k] == v@[k].deep_view());
        }
    }
    v.push(x);
    proof {
        assert(v@ == pre_v.push(x));
        assert forall|k: int| 0 <= k < v@.len() implies v.deep_view()[k] == v@[k].deep_view() by {
            assert(v.deep_view()[k] == v@[k].deep_view());
        }
        assert(v.deep_view() =~= pre_deep.push(x.deep_view()));
    }
}

/// Pushes one encoded entry, with the views kept in step.
pub fn push_enc(encs: &mut Vec<Vec<u8>>, e: Vec<u8>)
    ensures
        final(encs).deep_view() == old(encs).deep_view().push(e@),
{
    let ghost pre_deep = encs.deep_view();
    let ghost pre_v = encs@;
    proof {
        assert forall|k: int| 0 <= k < pre_v.len() implies pre_deep[k] == pre_v[k]@ by {
            assert(encs.deep_view()[k] == encs@[k].deep_view());
            assert(encs@[k].deep_view() =~= encs@[k]@);
        }
    }
    encs.push(e);
    proof {
        assert(encs@ == pre_v.push(e));
        assert forall|k: int| 0 <= k < encs@.len() implies encs.deep_view()[k] == encs@[k]@ by {
            assert(encs.deep_view()[k] == encs@[k].deep_view());
            assert(encs@[k].deep_view() =~= encs@[k]@);
        }
        assert(encs.deep_view() =~= pre_deep.push(e@));
    }
}

/// Appends the encoding of one CBOR value to `out`.
#[verifier::loop_isolation(false)]
pub fn encode_value(v: &CborValue, out: &mut Vec<u8>)
    ensures
        final(out)@ == old(out)@ + spec_encode_value(v@),
    decreases *v,
{
    match v {
        CborValue::Null => {
            out.push(0xf6);
            assert(final(out)@ == old(out)@ + spec_encode_value(v@));
        },
        CborValue::Bool(b) => {
            if *b {
                out.push(0xf5);
            } else {
                out.push(0xf4);
            }
            assert(final(out)@ == old(out)@ + spec_encode_value(v@));
        },
        CborValue::Int(i) => {
            if *i >= 0 {
                cbor_header(0, *i as u64, out);
            } else {
                let m: i64 = -1 - *i;
                assert(m as u64 as nat == -1 - (*i as int));
                cbor_header(1, m as u64, out);
            }
            assert(final(out)@ == old(out)@ + spec_encode_value(v@));
        },
        CborValue::Text(s) => {
            cbor_text(s.as_str(), out);
            assert(final(out)@ == old(out)@ + spec_encode_value(v@));
        },
        CborValue::Bytes(b) => {
            cbor_header(2, b.len() as u64, out);
            out.extend_from_slice(b.as_slice());
            assert(final(out)@ == old(out)@ + spec_encode_value(v@));
        },
        CborValue::Array(items) => {
            let ghost iv = cbor_view_seq(items@);
            proof {
                lemma_cbor_view_seq_len(items@);
                assert(iv.take(0) =~= Seq::<CborValueV>::empty());
            }
            cbor_header(4, items.len() as u64, out);
            let mut i: usize = 0;
            while i < items.len()
                invariant
                    iv == cbor_view_seq(items@),
                    iv.len() == items@.len(),
                    i <= items.len(),
                    out@ == old(out)@ + spec_cbor_header(4, iv.len()) + spec_encode_items(iv.take(
                        i as int,
                    )),
                decreases items.len() - i,
            {
                proof {
                    lemma_cbor_view_seq_index(items@, i as int);
                    lemma_encode_items_take(iv, i as int);
                    assert(decreases_to!(*v => (*v)->Array_0));
                    assert((*v)->Array_0 == *items);
                    assert(decreases_to!(*items => items@));
                    assert(decreases_to!(items@ => items@[i as int]));
                    assert(decreases_to!(*v => items@[i as int]));
                }
                encode_value(&items[i], out);
                i = i + 1;
            }
            proof {
                assert(iv.take(iv.len() as int) =~= iv);
                assert(final(out)@ == old(out)@ + spec_encode_value(v@));
            }
        },
        CborValue::Object(entries) => {
            let ghost ev = cbor_view_entries(entries@);
            proof {
                lemma_cbor_view_entries_len(entries@);
                lemma_map_entry_encs_len(ev.take(0));
                assert(ev.take(0) =~= Seq::<(Seq<char>, CborValueV)>::empty());
            }
            let mut encs: Vec<Vec<u8>> = Vec::new();
            let mut i: usize = 0;
            while i < entries.len()
                invariant
                    ev == cbor_view_entries(entries@),
                    ev.len() == entries@.len(),
                    i <= entries.len(),
                    encs.deep_view() == spec_map_entry_encs(ev.take(i as int)),
                decreases entries.len() - i,
            {
                proof {
                    lemma_cbor_view_entries_index(entries@, i as int);
                    lemma_map_entry_encs_take(ev, i as int);
                }
                let mut e: Vec<u8> = Vec::new();
                cbor_text(entries[i].0.as_str(), &mut e);
                proof {
                    assert(decreases_to!(*v => (*v)->Object_0));
                    assert((*v)->Object_0 == *entries);
                    assert(decreases_to!(*entries => entries@));
                    assert(decreases_to!(entries@ => entries@[i as int]));
                    assert(decreases_to!(entries@[i as int] => entries@[i as int].1));
                    assert(decreases_to!(*v => entries@[i as int].1));
                }
                encode_value(&entries[i].1, &mut e);
                let ghost pre_deep = encs.deep_view();
                let ghost pre_v = encs@;
                proof {
                    assert forall|k: int| 0 <= k < pre_v.len() implies pre_deep[k]
                        == pre_v[k]@ by {
                        assert(encs.deep_view()[k] == encs@[k].deep_view());
                        assert(encs@[k].deep_view() =~= encs@[k]@);
                    }
                }
                encs.push(e);
                proof {
                    assert(encs@ == pre_v.push(e));
                    assert forall|k: int| 0 <= k < encs@.len() implies encs.deep_view()[k]
                        == encs@[k]@ by {
                        assert(encs.deep_view()[k] == encs@[k].deep_view());
                        assert(encs@[k].deep_view() =~= encs@[k]@);
                    }
                    assert(encs.deep_view() =~= pre_deep.push(e@));
                    lemma_map_entry_encs_len(ev.take(i as int));
                }
                i = i + 1;
            }
            proof {
                assert(ev.take(ev.len() as int) =~= ev);
            }
            cbor_map_from_encs(encs, out);
            assert(final(out)@ == old(out)@ + spec_encode_value(v@));
        },
    }
}

pub proof fn lemma_encode_items_take(items: Seq<CborValueV>, i: int)
    requires
        0 <= i < items.len(),
    ensures
        spec_encode_items(items.take(i + 1)) == spec_encode_items(items.take(i))
            + spec_encode_value(items[i]),
    decreases i,
{
    if i == 0 {
        assert(items.take(1)[0] == items[0]);
        assert(items.take(1).len() == 1);
        assert(items.take(1).drop_first() =~= Seq::<CborValueV>::empty());
        assert(items.take(0) =~= Seq::<CborValueV>::empty());
        assert(spec_encode_items(items.take(1)) =~= spec_encode_items(items.take(0))
            + spec_encode_value(items[0]));
    } else {
        lemma_encode_items_take(items.drop_first(), i - 1);
        assert(items.take(i + 1).drop_first() =~= items.drop_first().take(i));
        assert(items.take(i).drop_first() =~= items.drop_first().take(i - 1));
        assert(items.take(i + 1)[0] == items[0]);
        assert(items.take(i)[0] == items[0]);
        assert(items.drop_first()[i - 1] == items[i]);
        assert(spec_encode_items(items.take(i + 1)) =~= spec_encode_items(items.take(i))
            + spec_encode_value(items[i]));
    }
}

// ---------------------------------------------------------------------------
// Digests, base32, CIDs and DID derivation
// ---------------------------------------------------------------------------

/// The SHA-256 digest of a byte string.
pub uninterp spec fn sha256_of(data: Seq<u8>) -> Seq<u8>;

/// Relies on sha2's `Sha256`: a 32-byte digest that is a function of the
/// input bytes alone.
#[verifier::external_body]
pub fn sha256(data: &[u8]) -> (r: Vec<u8>)
    ensures
        r@ == sha256_of(data@),
        r@.len() == 32,
{
    <sha2::Sha256 as sha2::Digest>::digest(data).to_vec()
}

/// The RFC 4648 base32 encoding of a byte string, lower-case and unpadded.
pub uninterp spec fn base32_lower_of(data: Seq<u8>) -> Seq<char>;

/// Relies on base32's `encode` with the `Rfc4648Lower { padding: false }`
/// alphabet: one ASCII character per five bits of input, rounded up, and a
/// function of the input bytes alone.
#[verifier::external_body]
pub fn base32_lower(data: &[u8]) -> (r: String)
    ensures
        r@ == base32_lower_of(data@),
        r@.len() == (data@.len() * 8 + 4) / 5,
        vstd::string::string_is_ascii(&r),
{
    base32::encode(base32::Alphabet::Rfc4648Lower { padding: false }, data)
}

/// The binary CIDv1 of signed operation bytes: version 1, the dag-cbor
/// multicodec 0x71, and a SHA-256 multihash (0x12, 32 bytes).
pub open spec fn spec_cid_bytes(signed: Seq<u8>) -> Seq<u8> {
    seq![0x01u8, 0x71u8, 0x12u8, 0x20u8] + sha256_of(signed)
}

/// The canonical text form of that CID: the multibase prefix `b` followed by
/// the base32 of the binary form.
pub open spec fn spec_cid_str(signed: Seq<u8>) -> Seq<char> {
    "b"@ + base32_lower_of(spec_cid_bytes(signed))
}

/// Computes the text CID over signed operation bytes.
pub fn cid_str(signed: &Vec<u8>) -> (r: String)
    ensures
        r@ == spec_cid_str(signed@),
{
    let digest = sha256(signed.as_slice());
    let mut bytes: Vec<u8> = Vec::new();
    bytes.push(0x01);
    bytes.push(0x71);
    bytes.push(0x12);
    bytes.push(0x20);
    bytes.extend_from_slice(digest.as_slice());
    proof {
        assert(bytes@ =~= spec_cid_bytes(signed@));
    }
    let b32 = base32_lower(bytes.as_slice());
    let r = String::from_str("b").concat(b32.as_str());
    r
}

/// The DID that a genesis operation's signed bytes define: `did:plc:` and
/// the first 24 characters of the base32 of their SHA-256 digest.
pub open spec fn spec_derive_did(signed: Seq<u8>) -> Seq<char> {
    "did:plc:"@ + base32_lower_of(sha256_of(signed)).take(24)
}

/// Derives the DID defined by a genesis operation's signed bytes.
pub fn derive_did(signed: &Vec<u8>) -> (r: String)
    ensures
        r@ == spec_derive_did(signed@),
{
    let digest = sha256(signed.as_slice());
    let b32 = base32_lower(digest.as_slice());
    let prefix = b32.as_str().substring_char(0, 24);
    String::from_str("did:plc:").concat(prefix)
}

} // verus!
