use vstd::prelude::*;
use vstd::utf8::{decode_utf8, valid_utf8};

use crate::zip::{le16, le32, spec_zip_file, spec_zip_file_part, lemma_zip_file_part_len, ZipFilePartView};
use crate::{file_data, local_file_names};

verus! {

/// Byte `k` (0 = least significant) of `x`.
pub open spec fn byte_of(x: int, k: int) -> u8 {
    if k == 0 {
        (x % 256) as u8
    } else if k == 1 {
        ((x / 256) % 256) as u8
    } else if k == 2 {
        ((x / 65536) % 256) as u8
    } else {
        ((x / 16777216) % 256) as u8
    }
}

/// The 30-byte local file header of a store-mode entry with a name of
/// `name_len` bytes and a payload of `data_len` bytes; every other field is 0.
pub open spec fn stored_header(name_len: int, data_len: int) -> Seq<u8> {
    seq![
        0x50u8, 0x4b, 0x03, 0x04,
        0, 0, 0, 0, 0, 0, 0, 0, 0, 0,
        0, 0, 0, 0,
        byte_of(data_len, 0), byte_of(data_len, 1), byte_of(data_len, 2), byte_of(data_len, 3),
        byte_of(data_len, 0), byte_of(data_len, 1), byte_of(data_len, 2), byte_of(data_len, 3),
        byte_of(name_len, 0), byte_of(name_len, 1),
        0, 0,
    ]
}

/// A store-mode local file header with its name and payload.
pub open spec fn stored_entry(name: Seq<u8>, data: Seq<u8>) -> Seq<u8> {
    stored_header(name.len() as int, data.len() as int) + name + data
}

/// Store-mode entries (name bytes, payload) laid end to end.
pub open spec fn stored_entries(entries: Seq<(Seq<u8>, Seq<u8>)>) -> Seq<u8>
    decreases entries.len(),
{
    if entries.len() == 0 {
        seq![]
    } else {
        stored_entry(entries[0].0, entries[0].1) + stored_entries(entries.drop_first())
    }
}

/// An entry that a store-mode header can describe: a UTF-8 name whose length
/// fits 16 bits and a payload whose length fits 32 bits.
pub open spec fn storable(e: (Seq<u8>, Seq<u8>)) -> bool {
    valid_utf8(e.0) && e.0.len() < 0x1_0000 && e.1.len() < 0x1_0000_0000
}

/// The decoded names of `entries`, in order.
pub open spec fn entry_names(entries: Seq<(Seq<u8>, Seq<u8>)>) -> Seq<Seq<char>>
    decreases entries.len(),
{
    if entries.len() == 0 {
        seq![]
    } else {
        seq![decode_utf8(entries[0].0)] + entry_names(entries.drop_first())
    }
}

/// The payload of the first of `entries` whose decoded name is `name`.
pub open spec fn entry_data(entries: Seq<(Seq<u8>, Seq<u8>)>, name: Seq<char>) -> Option<Seq<u8>>
    decreases entries.len(),
{
    if entries.len() == 0 {
        None
    } else if decode_utf8(entries[0].0) == name {
        Some(entries[0].1)
    } else {
        entry_data(entries.drop_first(), name)
    }
}

/// Records that hold no local file header (a central directory and its end record).
pub open spec fn no_local_headers(parts: Seq<ZipFilePartView>) -> bool {
    forall|i: int| 0 <= i < parts.len() ==> !(#[trigger] parts[i] is LocalFileHeader)
}

proof fn lemma_byte_fields(x: int)
    requires
        0 <= x < 0x1_0000_0000,
    ensures
        byte_of(x, 0) as int + 256 * (byte_of(x, 1) as int) + 65536 * (byte_of(x, 2) as int + 256
            * (byte_of(x, 3) as int)) == x,
        x < 0x1_0000 ==> byte_of(x, 0) as int + 256 * (byte_of(x, 1) as int) == x,
{
    assert(x == x % 256 + 256 * ((x / 256) % 256) + 65536 * ((x / 65536) % 256) + 16777216 * ((x
        / 16777216) % 256)) by (nonlinear_arith)
        requires
            0 <= x < 0x1_0000_0000,
    ;
    assert(x < 0x1_0000 ==> x == x % 256 + 256 * ((x / 256) % 256)) by (nonlinear_arith)
        requires
            0 <= x,
    ;
}

/// A store-mode entry, whatever follows it, decodes as one local file header
/// spanning exactly the entry.
proof fn lemma_stored_entry_decodes(name: Seq<u8>, data: Seq<u8>, rest: Seq<u8>)
    requires
        storable((name, data)),
    ensures
        spec_zip_file_part(stored_entry(name, data) + rest) matches Ok((ZipFilePartView::LocalFileHeader(h), n))
            && n == stored_entry(name, data).len()
            && h.file_name == decode_utf8(name)
            && h.uncompressed_data == Some(data),
{
    reveal(spec_zip_file_part);
    let hd = stored_header(name.len() as int, data.len() as int);
    let s = stored_entry(name, data) + rest;
    let nl = name.len() as int;
    let dl = data.len() as int;
    lemma_byte_fields(nl);
    lemma_byte_fields(dl);
    assert(hd.len() == 30);
    assert forall|i: int| 0 <= i < 30 implies #[trigger] s[i] == hd[i] by {}
    assert(le32(s, 0) == 0x04034b50);
    assert(le16(s, 8) == 0);
    assert(le32(s, 22) == dl);
    assert(le16(s, 26) == nl);
    assert(le16(s, 28) == 0);
    assert(s.subrange(30, 30 + nl) =~= name);
    assert(s.subrange(30 + nl, 30 + nl + dl) =~= data);
    assert(s.subrange(30 + nl, 30 + nl) =~= Seq::<u8>::empty());
}

/// A record followed by bytes that decode makes a buffer that decodes to that
/// record and then theirs.
proof fn lemma_decode_after_record(buf: Seq<u8>, x: Seq<u8>)
    requires
        spec_zip_file_part(buf) is Ok,
        spec_zip_file_part(buf)->Ok_0.1 < buf.len(),
        buf.subrange(spec_zip_file_part(buf)->Ok_0.1, buf.len() as int) == x,
        spec_zip_file(x) is Ok,
    ensures
        spec_zip_file(buf) == Ok::<_, crate::ParseError>(seq![spec_zip_file_part(buf)->Ok_0.0] + spec_zip_file(x)->Ok_0),
{
    lemma_zip_file_part_len(buf);
}

proof fn lemma_local_cons(h: crate::zip::LocalFileHeaderView, xp: Seq<ZipFilePartView>)
    ensures
        local_file_names(seq![ZipFilePartView::LocalFileHeader(h)] + xp) == seq![h.file_name] + local_file_names(xp),
        forall|nm: Seq<char>| #[trigger] file_data(seq![ZipFilePartView::LocalFileHeader(h)] + xp, nm)
            == if h.file_name == nm { h.uncompressed_data } else { file_data(xp, nm) },
{
    let parts = seq![ZipFilePartView::LocalFileHeader(h)] + xp;
    assert(parts.drop_first() =~= xp);
    assert(parts[0] == ZipFilePartView::LocalFileHeader(h));
}

proof fn lemma_stored_entries_decode(entries: Seq<(Seq<u8>, Seq<u8>)>, tail: Seq<u8>)
    requires
        forall|i: int| 0 <= i < entries.len() ==> storable(#[trigger] entries[i]),
        spec_zip_file(tail) is Ok,
    ensures
        spec_zip_file(stored_entries(entries) + tail) is Ok,
        local_file_names(spec_zip_file(stored_entries(entries) + tail)->Ok_0) == entry_names(entries)
            + local_file_names(spec_zip_file(tail)->Ok_0),
        forall|name: Seq<char>| #[trigger] file_data(spec_zip_file(stored_entries(entries) + tail)->Ok_0, name)
            == match entry_data(entries, name) {
                Some(d) => Some(d),
                None => file_data(spec_zip_file(tail)->Ok_0, name),
            },
    decreases entries.len(),
{
    let tp = spec_zip_file(tail)->Ok_0;
    if entries.len() == 0 {
        assert(stored_entries(entries) + tail =~= tail);
        assert(Seq::<Seq<char>>::empty() + local_file_names(tp) =~= local_file_names(tp));
    } else {
        let rest = entries.drop_first();
        assert forall|i: int| 0 <= i < rest.len() implies storable(#[trigger] rest[i]) by {
            assert(rest[i] == entries[i + 1]);
        }
        lemma_stored_entries_decode(rest, tail);
        let name = entries[0].0;
        let data = entries[0].1;
        assert(storable(entries[0]));
        let x = stored_entries(rest) + tail;
        let buf = stored_entries(entries) + tail;
        assert(buf =~= stored_entry(name, data) + x);
        lemma_stored_entry_decodes(name, data, x);
        lemma_zip_file_part_len(tail);
        let n = stored_entry(name, data).len() as int;
        assert(buf.subrange(n, buf.len() as int) =~= x);
        lemma_decode_after_record(buf, x);
        let xp = spec_zip_file(x)->Ok_0;
        let h = spec_zip_file_part(buf)->Ok_0.0->LocalFileHeader_0;
        lemma_local_cons(h, xp);
        assert(seq![decode_utf8(name)] + (entry_names(rest) + local_file_names(tp)) =~= (seq![
            decode_utf8(name)] + entry_names(rest)) + local_file_names(tp));
    }
}

proof fn lemma_no_local_names(parts: Seq<ZipFilePartView>)
    requires
        no_local_headers(parts),
    ensures
        local_file_names(parts) == Seq::<Seq<char>>::empty(),
    decreases parts.len(),
{
    if parts.len() > 0 {
        assert(!(parts[0] is LocalFileHeader));
        assert forall|i: int| 0 <= i < parts.drop_first().len() implies !(
        #[trigger] parts.drop_first()[i] is LocalFileHeader) by {
            assert(parts.drop_first()[i] == parts[i + 1]);
        }
        lemma_no_local_names(parts.drop_first());
    }
}

/// Store-mode entries laid end to end and followed by records without a local
/// file header (such as a central directory and its end record) decode, and
/// the archive lists exactly the entries' names, in the order of the bytes.
pub proof fn lemma_stored_archive_lists_entries(entries: Seq<(Seq<u8>, Seq<u8>)>, tail: Seq<u8>)
    requires
        forall|i: int| 0 <= i < entries.len() ==> storable(#[trigger] entries[i]),
        spec_zip_file(tail) is Ok,
        no_local_headers(spec_zip_file(tail)->Ok_0),
    ensures
        spec_zip_file(stored_entries(entries) + tail) is Ok,
        local_file_names(spec_zip_file(stored_entries(entries) + tail)->Ok_0) == entry_names(entries),
{
    lemma_stored_entries_decode(entries, tail);
    lemma_no_local_names(spec_zip_file(tail)->Ok_0);
    assert(entry_names(entries) + Seq::<Seq<char>>::empty() =~= entry_names(entries));
}

proof fn lemma_entry_data_at(entries: Seq<(Seq<u8>, Seq<u8>)>, i: int)
    requires
        0 <= i < entries.len(),
        forall|j: int| 0 <= j < i ==> decode_utf8(#[trigger] entries[j].0) != decode_utf8(entries[i].0),
    ensures
        entry_data(entries, decode_utf8(entries[i].0)) == Some(entries[i].1),
    decreases i,
{
    if i > 0 {
        let rest = entries.drop_first();
        assert(decode_utf8(entries[0].0) != decode_utf8(entries[i].0));
        assert(rest[i - 1] == entries[i]);
        assert forall|j: int| 0 <= j < i - 1 implies decode_utf8(#[trigger] rest[j].0) != decode_utf8(
            rest[i - 1].0) by {
            assert(rest[j] == entries[j + 1]);
        }
        lemma_entry_data_at(rest, i - 1);
    }
}

/// In such an archive, looking up a store-mode entry's name gives back its
/// payload, unless an earlier entry bears the same name.
pub proof fn lemma_stored_entry_round_trip(entries: Seq<(Seq<u8>, Seq<u8>)>, tail: Seq<u8>, i: int)
    requires
        forall|j: int| 0 <= j < entries.len() ==> storable(#[trigger] entries[j]),
        spec_zip_file(tail) is Ok,
        no_local_headers(spec_zip_file(tail)->Ok_0),
        0 <= i < entries.len(),
        forall|j: int| 0 <= j < i ==> decode_utf8(#[trigger] entries[j].0) != decode_utf8(entries[i].0),
    ensures
        spec_zip_file(stored_entries(entries) + tail) is Ok,
        file_data(spec_zip_file(stored_entries(entries) + tail)->Ok_0, decode_utf8(entries[i].0))
            == Some(entries[i].1),
{
    lemma_stored_entries_decode(entries, tail);
    lemma_entry_data_at(entries, i);
}

} // verus!
