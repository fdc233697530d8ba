//! The codec's central law: what the writer encodes, the reader parses back
//! exactly.

use vstd::bytes::*;
use vstd::prelude::*;
use vstd::utf8::{encode_utf8, encode_utf8_decode_utf8, encode_utf8_valid_utf8};

use crate::chunk::{ChunkCompression, DescriptorView};
use crate::container::{
    chunk_lookup, data_start, data_total, distinct_ids, uses_id, enc_data, enc_entry, enc_identity, enc_index, enc_str,
    entry_chunks, entry_len, has_id, identity_valid, header_prefix, index_len, lemma_enc_data_len,
    lemma_enc_index_len, lemma_encode_len, lemma_totals_monotone, magic, rd_entries, rd_entry,
    rd_identity, rd_str, spec_encode, spec_parse, ContainerContent, ContainerFault, EntryView,
    COMPRESSION_TAG_UNCOMPRESSED, IDENTITY_TAG_ASSET, IDENTITY_TAG_PACKAGE,
};
use crate::filename::ClassifiedView;
use crate::ident::{is_valid_segment, lemma_validate_ok};
use crate::version::EXPERIMENTAL_V0_NUMBER;
use crate::wire::{enc_bytes, fnv1a64_spec, rd_bytes, rd_take, rd_u16, rd_u32, rd_u64, rd_u8};

verus! {

/// True when `x` sits in `buf` starting at `pos`.
#[verifier::opaque]
pub open spec fn at(buf: Seq<u8>, pos: int, x: Seq<u8>) -> bool {
    0 <= pos && pos + x.len() <= buf.len() && buf.subrange(pos, pos + x.len()) == x
}

/// True when every string of the identity is a valid segment whose UTF-8
/// encoding fits a `u32` length.
pub open spec fn identity_encodable(c: ClassifiedView) -> bool {
    identity_valid(c) && match c {
        ClassifiedView::Package(p) => encode_utf8(p).len() <= u32::MAX,
        ClassifiedView::Asset(p, k) => encode_utf8(p).len() <= u32::MAX && encode_utf8(k).len()
            <= u32::MAX,
    }
}

/// The conditions under which an encoded container parses back to the same
/// content: a valid identity, distinct chunk ids, every length small enough
/// for its `u32` field, and an encoding that fits in memory.
pub open spec fn encodable(c: ContainerContent) -> bool {
    &&& identity_encodable(c.identity)
    &&& distinct_ids(c.chunks)
    &&& c.metadata.len() <= u32::MAX
    &&& c.chunks.len() <= u32::MAX
    &&& forall|i: int| 0 <= i < c.chunks.len() ==> encode_utf8((#[trigger] c.chunks[i]).0.kind).len() <= u32::MAX
    &&& spec_encode(c).len() <= usize::MAX
}

proof fn lemma_at_split(buf: Seq<u8>, pos: int, x: Seq<u8>, y: Seq<u8>)
    requires
        at(buf, pos, x + y),
    ensures
        at(buf, pos, x),
        at(buf, pos + x.len(), y),
{
    reveal(at);
    let whole = buf.subrange(pos, pos + x.len() + y.len());
    assert(whole == x + y);
    assert forall|k: int| 0 <= k < x.len() implies #[trigger] buf.subrange(pos, pos + x.len())[k]
        == x[k] by {
        assert(whole[k] == (x + y)[k]);
    }
    assert(buf.subrange(pos, pos + x.len()) =~= x);
    assert forall|k: int| 0 <= k < y.len() implies #[trigger] buf.subrange(
        pos + x.len(),
        pos + x.len() + y.len(),
    )[k] == y[k] by {
        assert(whole[x.len() + k] == (x + y)[x.len() + k]);
    }
    assert(buf.subrange(pos + x.len(), pos + x.len() + y.len()) =~= y);
}

proof fn lemma_at_whole(buf: Seq<u8>)
    ensures
        at(buf, 0, buf),
{
    reveal(at);
    assert(buf.subrange(0, buf.len() as int) =~= buf);
}

proof fn lemma_at_nested(buf: Seq<u8>, pos: int, big: Seq<u8>, q: int, x: Seq<u8>)
    requires
        at(buf, pos, big),
        at(big, q, x),
    ensures
        at(buf, pos + q, x),
{
    reveal(at);
    let outer = buf.subrange(pos, pos + big.len());
    assert forall|k: int| 0 <= k < x.len() implies #[trigger] buf.subrange(pos + q, pos + q + x.len())[k]
        == x[k] by {
        assert(outer[q + k] == big[q + k]);
        assert(big.subrange(q, q + x.len())[k] == big[q + k]);
    }
    assert(buf.subrange(pos + q, pos + q + x.len()) =~= x);
}

proof fn lemma_rd_u8(buf: Seq<u8>, pos: int, b: u8)
    requires
        at(buf, pos, seq![b]),
    ensures
        rd_u8(buf, pos) == Some((b, pos + 1)),
{
    reveal(at);
    assert(buf.subrange(pos, pos + 1)[0] == b);
}

proof fn lemma_rd_u16(buf: Seq<u8>, pos: int, v: u16)
    requires
        at(buf, pos, spec_u16_to_le_bytes(v)),
    ensures
        rd_u16(buf, pos) == Some((v, pos + 2)),
{
    reveal(at);
    lemma_auto_spec_u16_to_from_le_bytes();
}

proof fn lemma_rd_u32(buf: Seq<u8>, pos: int, v: u32)
    requires
        at(buf, pos, spec_u32_to_le_bytes(v)),
    ensures
        rd_u32(buf, pos) == Some((v, pos + 4)),
{
    reveal(at);
    lemma_auto_spec_u32_to_from_le_bytes();
}

proof fn lemma_rd_u64(buf: Seq<u8>, pos: int, v: u64)
    requires
        at(buf, pos, spec_u64_to_le_bytes(v)),
    ensures
        rd_u64(buf, pos) == Some((v, pos + 8)),
{
    reveal(at);
    lemma_auto_spec_u64_to_from_le_bytes();
}

proof fn lemma_rd_bytes(buf: Seq<u8>, pos: int, b: Seq<u8>)
    requires
        at(buf, pos, enc_bytes(b)),
        b.len() <= u32::MAX,
    ensures
        rd_bytes(buf, pos) == Some((b, pos + 4 + b.len())),
        enc_bytes(b).len() == 4 + b.len(),
{
    lemma_auto_spec_u32_to_from_le_bytes();
    lemma_at_split(buf, pos, spec_u32_to_le_bytes(b.len() as u32), b);
    lemma_rd_u32(buf, pos, b.len() as u32);
    reveal(at);
}

proof fn lemma_rd_str(buf: Seq<u8>, pos: int, s: Seq<char>)
    requires
        at(buf, pos, enc_str(s)),
        encode_utf8(s).len() <= u32::MAX,
    ensures
        rd_str(buf, pos) == Ok::<(Seq<char>, int), ContainerFault>((s, pos + enc_str(s).len())),
        enc_str(s).len() == 4 + encode_utf8(s).len(),
{
    lemma_rd_bytes(buf, pos, encode_utf8(s));
    encode_utf8_valid_utf8(s);
    encode_utf8_decode_utf8(s);
}

proof fn lemma_rd_identity(buf: Seq<u8>, pos: int, c: ClassifiedView)
    requires
        at(buf, pos, enc_identity(c)),
        identity_encodable(c),
    ensures
        rd_identity(buf, pos) == Ok::<(ClassifiedView, int), ContainerFault>(
            (c, pos + enc_identity(c).len()),
        ),
{
    match c {
        ClassifiedView::Package(p) => {
            lemma_at_split(buf, pos, seq![IDENTITY_TAG_PACKAGE], enc_str(p));
            lemma_rd_u8(buf, pos, IDENTITY_TAG_PACKAGE);
            lemma_rd_str(buf, pos + 1, p);
            lemma_validate_ok(p);
        },
        ClassifiedView::Asset(p, k) => {
            lemma_at_split(buf, pos, seq![IDENTITY_TAG_ASSET] + enc_str(p), enc_str(k));
            lemma_at_split(buf, pos, seq![IDENTITY_TAG_ASSET], enc_str(p));
            lemma_rd_u8(buf, pos, IDENTITY_TAG_ASSET);
            lemma_rd_str(buf, pos + 1, p);
            lemma_rd_str(buf, pos + 1 + enc_str(p).len(), k);
            lemma_validate_ok(p);
            lemma_validate_ok(k);
        },
    }
}

/// Where chunk `i`'s bytes start in the encoding.
pub open spec fn chunk_offset(c: ContainerContent, i: int) -> int {
    data_start(c) + data_total(c.chunks.take(i))
}

/// The index entries the reader reconstructs for the first `i` chunks.
pub open spec fn entries_upto(c: ContainerContent, i: int) -> Seq<EntryView> {
    Seq::new(
        i as nat,
        |j: int|
            EntryView {
                descriptor: c.chunks[j].0,
                offset: chunk_offset(c, j),
                size: c.chunks[j].1.len() as int,
                checksum: fnv1a64_spec(c.chunks[j].1),
            },
    )
}

proof fn lemma_index_prefix(chunks: Seq<(DescriptorView, Seq<u8>)>, base: int, j: int)
    requires
        0 <= j <= chunks.len(),
    ensures
        at(enc_index(chunks, base), 0, enc_index(chunks.take(j), base)),
    decreases chunks.len(),
{
    if j == chunks.len() {
        assert(chunks.take(j) =~= chunks);
        lemma_at_whole(enc_index(chunks, base));
    } else {
        let init = chunks.drop_last();
        assert(init.take(j) =~= chunks.take(j));
        lemma_index_prefix(init, base, j);
        let whole = enc_index(chunks, base);
        let last = enc_entry(chunks.last().0, base + data_total(init), chunks.last().1);
        assert(whole == enc_index(init, base) + last);
        lemma_at_whole(whole);
        lemma_at_split(whole, 0, enc_index(init, base), last);
        lemma_at_nested(whole, 0, enc_index(init, base), 0, enc_index(chunks.take(j), base));
    }
}

proof fn lemma_data_prefix(chunks: Seq<(DescriptorView, Seq<u8>)>, j: int)
    requires
        0 <= j <= chunks.len(),
    ensures
        at(enc_data(chunks), 0, enc_data(chunks.take(j))),
    decreases chunks.len(),
{
    if j == chunks.len() {
        assert(chunks.take(j) =~= chunks);
        lemma_at_whole(enc_data(chunks));
    } else {
        let init = chunks.drop_last();
        assert(init.take(j) =~= chunks.take(j));
        lemma_data_prefix(init, j);
        let whole = enc_data(chunks);
        assert(whole == enc_data(init) + chunks.last().1);
        lemma_at_whole(whole);
        lemma_at_split(whole, 0, enc_data(init), chunks.last().1);
        lemma_at_nested(whole, 0, enc_data(init), 0, enc_data(chunks.take(j)));
    }
}

/// Chunk `i`'s index entry and bytes sit where the encoding says.
proof fn lemma_chunk_placement(c: ContainerContent, i: int)
    requires
        0 <= i < c.chunks.len(),
    ensures
        at(
            spec_encode(c),
            header_prefix(c).len() + index_len(c.chunks.take(i)),
            enc_entry(c.chunks[i].0, chunk_offset(c, i), c.chunks[i].1),
        ),
        at(spec_encode(c), chunk_offset(c, i), c.chunks[i].1),
        chunk_offset(c, i) + c.chunks[i].1.len() == chunk_offset(c, i + 1),
        index_len(c.chunks.take(i + 1)) == index_len(c.chunks.take(i)) + entry_len(c.chunks[i].0),
{
    let buf = spec_encode(c);
    let p = header_prefix(c);
    let base = data_start(c);
    let idx = enc_index(c.chunks, base);
    let dat = enc_data(c.chunks);
    lemma_enc_index_len(c.chunks, base);
    lemma_enc_data_len(c.chunks);
    assert(buf == (p + idx) + dat);
    lemma_at_whole(buf);
    lemma_at_split(buf, 0, p + idx, dat);
    lemma_at_split(buf, 0, p, idx);
    let upto = c.chunks.take(i + 1);
    let before = c.chunks.take(i);
    assert(upto.drop_last() =~= before);
    assert(upto.last() == c.chunks[i]);
    lemma_index_prefix(c.chunks, base, i + 1);
    lemma_enc_index_len(before, base);
    let entry = enc_entry(c.chunks[i].0, base + data_total(before), c.chunks[i].1);
    assert(enc_index(upto, base) == enc_index(before, base) + entry);
    lemma_at_whole(enc_index(upto, base));
    lemma_at_nested(idx, 0, enc_index(upto, base), 0, enc_index(before, base) + entry);
    lemma_at_split(idx, 0, enc_index(before, base), entry);
    lemma_at_nested(buf, p.len() as int, idx, index_len(before), entry);
    lemma_data_prefix(c.chunks, i + 1);
    lemma_enc_data_len(before);
    assert(enc_data(upto) == enc_data(before) + c.chunks[i].1);
    lemma_at_whole(enc_data(upto));
    lemma_at_nested(dat, 0, enc_data(upto), 0, enc_data(before) + c.chunks[i].1);
    lemma_at_split(dat, 0, enc_data(before), c.chunks[i].1);
    lemma_at_nested(buf, (p.len() + idx.len()) as int, dat, data_total(before), c.chunks[i].1);
    lemma_enc_index_len(upto, base);
}

proof fn lemma_read_entry(c: ContainerContent, i: int)
    requires
        encodable(c),
        0 <= i < c.chunks.len(),
    ensures
        rd_entry(
            spec_encode(c),
            header_prefix(c).len() + index_len(c.chunks.take(i)),
            entries_upto(c, i),
        ) == Ok::<(EntryView, int), ContainerFault>(
            (
                entries_upto(c, i + 1)[i],
                header_prefix(c).len() + index_len(c.chunks.take(i + 1)),
            ),
        ),
{
    let buf = spec_encode(c);
    let pos = header_prefix(c).len() + index_len(c.chunks.take(i));
    let d = c.chunks[i].0;
    let data = c.chunks[i].1;
    let off = chunk_offset(c, i);
    lemma_chunk_placement(c, i);
    lemma_encode_len(c);
    lemma_totals_monotone(c.chunks, i + 1);
    assert(c.chunks.take(i + 1).take(i) =~= c.chunks.take(i));
    lemma_totals_monotone(c.chunks.take(i + 1), i);
    let a = spec_u32_to_le_bytes(d.id);
    let k = enc_str(d.kind);
    let t = seq![COMPRESSION_TAG_UNCOMPRESSED];
    let o = spec_u64_to_le_bytes(off as u64);
    let z = spec_u64_to_le_bytes(data.len() as u64);
    let h = spec_u64_to_le_bytes(fnv1a64_spec(data));
    assert(enc_entry(d, off, data) == a + k + t + o + z + h);
    lemma_at_split(buf, pos, a + k + t + o + z, h);
    lemma_at_split(buf, pos, a + k + t + o, z);
    lemma_at_split(buf, pos, a + k + t, o);
    lemma_at_split(buf, pos, a + k, t);
    lemma_at_split(buf, pos, a, k);
    lemma_auto_spec_u32_to_from_le_bytes();
    lemma_auto_spec_u64_to_from_le_bytes();
    lemma_rd_u32(buf, pos, d.id);
    lemma_rd_str(buf, pos + 4, d.kind);
    lemma_rd_u8(buf, pos + 4 + k.len(), COMPRESSION_TAG_UNCOMPRESSED);
    lemma_rd_u64(buf, pos + 4 + k.len() + 1, off as u64);
    lemma_rd_u64(buf, pos + 4 + k.len() + 9, data.len() as u64);
    lemma_rd_u64(buf, pos + 4 + k.len() + 17, fnv1a64_spec(data));
    let prior = entries_upto(c, i);
    assert(!has_id(prior, d.id)) by {
        if has_id(prior, d.id) {
            let j = choose|j: int| 0 <= j < prior.len() && (#[trigger] prior[j]).descriptor.id == d.id;
            assert(c.chunks[j].0.id != c.chunks[i].0.id);
        }
    }
    assert(buf.subrange(off, off + data.len()) == data) by {
        reveal(at);
    }
    assert(d.compression == ChunkCompression::Uncompressed);
}

proof fn lemma_read_entries(c: ContainerContent, i: int)
    requires
        encodable(c),
        0 <= i <= c.chunks.len(),
    ensures
        rd_entries(
            spec_encode(c),
            header_prefix(c).len() + index_len(c.chunks.take(i)),
            (c.chunks.len() - i) as nat,
            entries_upto(c, i),
        ) == Ok::<Seq<EntryView>, ContainerFault>(entries_upto(c, c.chunks.len() as int)),
    decreases c.chunks.len() - i,
{
    if i < c.chunks.len() {
        lemma_read_entry(c, i);
        assert(entries_upto(c, i).push(entries_upto(c, i + 1)[i]) =~= entries_upto(c, i + 1));
        lemma_read_entries(c, i + 1);
    }
}

/// A header prefix found at the start of `buf` reads back field by field.
proof fn lemma_read_prefix(buf: Seq<u8>, identity: ClassifiedView, metadata: Seq<u8>, count: u32)
    requires
        at(
            buf,
            0,
            magic() + spec_u16_to_le_bytes(EXPERIMENTAL_V0_NUMBER) + enc_identity(identity)
                + enc_bytes(metadata) + spec_u32_to_le_bytes(count),
        ),
        identity_encodable(identity),
        metadata.len() <= u32::MAX,
    ensures
        ({
            let id = enc_identity(identity).len() as int;
            let md = enc_bytes(metadata).len() as int;
            &&& rd_take(buf, 0, 8) == Some((magic(), 8int))
            &&& rd_u16(buf, 8) == Some((EXPERIMENTAL_V0_NUMBER, 10int))
            &&& rd_identity(buf, 10) == Ok::<(ClassifiedView, int), ContainerFault>(
                (identity, 10 + id),
            )
            &&& rd_bytes(buf, 10 + id) == Some((metadata, 10 + id + md))
            &&& rd_u32(buf, 10 + id + md) == Some((count, 14 + id + md))
        }),
{
    let m = magic();
    let v = spec_u16_to_le_bytes(EXPERIMENTAL_V0_NUMBER);
    let id = enc_identity(identity);
    let md = enc_bytes(metadata);
    let n = spec_u32_to_le_bytes(count);
    lemma_auto_spec_u16_to_from_le_bytes();
    lemma_auto_spec_u32_to_from_le_bytes();
    lemma_at_split(buf, 0, m + v + id + md, n);
    lemma_at_split(buf, 0, m + v + id, md);
    lemma_at_split(buf, 0, m + v, id);
    lemma_at_split(buf, 0, m, v);
    assert(rd_take(buf, 0, 8) == Some((m, 8int))) by {
        reveal(at);
    }
    lemma_rd_u16(buf, 8, EXPERIMENTAL_V0_NUMBER);
    lemma_rd_identity(buf, 10, identity);
    lemma_rd_bytes(buf, (10 + id.len()) as int, metadata);
    lemma_rd_u32(buf, (10 + id.len() + md.len()) as int, count);
}

/// The encoding starts with its header prefix.
proof fn lemma_prefix_at_start(c: ContainerContent)
    ensures
        at(spec_encode(c), 0, header_prefix(c)),
{
    let buf = spec_encode(c);
    let p = header_prefix(c);
    lemma_at_whole(buf);
    lemma_at_split(buf, 0, p + enc_index(c.chunks, data_start(c)), enc_data(c.chunks));
    lemma_at_split(buf, 0, p, enc_index(c.chunks, data_start(c)));
}

/// The chunks the reader reconstructs are the chunks that were written.
proof fn lemma_entry_chunks(c: ContainerContent)
    requires
        encodable(c),
    ensures
        entry_chunks(spec_encode(c), entries_upto(c, c.chunks.len() as int)) == c.chunks,
{
    let buf = spec_encode(c);
    let entries = entries_upto(c, c.chunks.len() as int);
    assert forall|j: int| 0 <= j < c.chunks.len() implies #[trigger] entry_chunks(buf, entries)[j]
        == c.chunks[j] by {
        lemma_chunk_placement(c, j);
        reveal(at);
    }
    assert(entry_chunks(buf, entries) =~= c.chunks);
}

/// Round trip: every container whose content is encodable parses back to
/// exactly that content: the same self-identity, the same metadata, and the
/// same chunks (descriptors and bytes) in the same order.
///
/// The conditions leave out only what the format cannot express: a length
/// over `u32::MAX`, a duplicate chunk id (which the writer refuses), an
/// identity the reader would reject, and an encoding larger than memory.
#[verifier::rlimit(40)]
pub proof fn law_encode_parse_round_trip(c: ContainerContent)
    requires
        encodable(c),
    ensures
        spec_parse(spec_encode(c)) == Ok::<ContainerContent, ContainerFault>(c),
{
    let buf = spec_encode(c);
    let id = enc_identity(c.identity).len() as int;
    let md = enc_bytes(c.metadata).len() as int;
    lemma_prefix_at_start(c);
    lemma_read_prefix(buf, c.identity, c.metadata, c.chunks.len() as u32);
    lemma_auto_spec_u16_to_from_le_bytes();
    lemma_auto_spec_u32_to_from_le_bytes();
    assert(header_prefix(c).len() == 14 + id + md);
    assert(c.chunks.take(0) =~= Seq::<(DescriptorView, Seq<u8>)>::empty());
    assert(entries_upto(c, 0) =~= Seq::<EntryView>::empty());
    assert(index_len(c.chunks.take(0)) == 0);
    lemma_read_entries(c, 0);
    lemma_entry_chunks(c);
    assert((c.chunks.len() as u32) as nat == c.chunks.len());
    let entries = entries_upto(c, c.chunks.len() as int);
    assert(rd_entries(buf, 14 + id + md, c.chunks.len(), Seq::empty()) == Ok::<
        Seq<EntryView>,
        ContainerFault,
    >(entries));
}

/// In a container with distinct chunk ids, looking a chunk up by its id
/// finds exactly that chunk's bytes; together with the round trip this
/// means `chunk_bytes` returns what `push_chunk` stored.
pub proof fn law_lookup_finds_each_chunk(chunks: Seq<(DescriptorView, Seq<u8>)>, j: int)
    requires
        distinct_ids(chunks),
        0 <= j < chunks.len(),
    ensures
        chunk_lookup(chunks, chunks[j].0.id) == Some(chunks[j].1),
    decreases j,
{
    if j > 0 {
        let rest = chunks.drop_first();
        assert(chunks[0].0.id != chunks[j].0.id);
        assert(rest[j - 1] == chunks[j]);
        assert(distinct_ids(rest)) by {
            assert forall|a: int, b: int| 0 <= a < b < rest.len() implies (#[trigger] rest[a]).0.id
                != (#[trigger] rest[b]).0.id by {
                assert(rest[a] == chunks[a + 1] && rest[b] == chunks[b + 1]);
            }
        }
        law_lookup_finds_each_chunk(rest, j - 1);
    }
}

/// Looking up an id no chunk uses finds nothing, so `chunk_bytes` answers
/// `UnknownChunkId`.
pub proof fn law_lookup_misses_absent_id(chunks: Seq<(DescriptorView, Seq<u8>)>, id: u32)
    requires
        !uses_id(chunks, id),
    ensures
        chunk_lookup(chunks, id) is None,
    decreases chunks.len(),
{
    if chunks.len() > 0 {
        let rest = chunks.drop_first();
        assert(chunks[0].0.id != id);
        assert(!uses_id(rest, id)) by {
            if uses_id(rest, id) {
                let k = choose|k: int| 0 <= k < rest.len() && (#[trigger] rest[k]).0.id == id;
                assert(chunks[k + 1] == rest[k]);
            }
        }
        law_lookup_misses_absent_id(rest, id);
    }
}

/// True when `bytes` is a contiguous range of `buf`.
pub open spec fn lies_in(buf: Seq<u8>, bytes: Seq<u8>) -> bool {
    exists|o: int|
        0 <= o && o + bytes.len() <= buf.len() && #[trigger] buf.subrange(o, o + bytes.len())
            == bytes
}

/// Index entries that name distinct ids, declare no compression and place
/// their bytes inside `buf`.
pub open spec fn entries_well_formed(buf: Seq<u8>, es: Seq<EntryView>) -> bool {
    &&& forall|i: int, j: int|
        0 <= i < j < es.len() ==> (#[trigger] es[i]).descriptor.id != (#[trigger] es[j]).descriptor.id
    &&& forall|i: int|
        0 <= i < es.len() ==> (#[trigger] es[i]).descriptor.compression
            == ChunkCompression::Uncompressed && 0 <= es[i].offset && 0 <= es[i].size
            && es[i].offset + es[i].size <= buf.len()
            && fnv1a64_spec(buf.subrange(es[i].offset, es[i].offset + es[i].size)) == es[i].checksum
}

proof fn lemma_rd_entries_well_formed(buf: Seq<u8>, pos: int, count: nat, acc: Seq<EntryView>)
    requires
        entries_well_formed(buf, acc),
    ensures
        rd_entries(buf, pos, count, acc) matches Ok(es) ==> entries_well_formed(buf, es),
    decreases count,
{
    if count > 0 {
        if let Ok((e, p)) = rd_entry(buf, pos, acc) {
            let next = acc.push(e);
            assert(!has_id(acc, e.descriptor.id));
            assert forall|i: int, j: int| 0 <= i < j < next.len() implies (
            #[trigger] next[i]).descriptor.id != (#[trigger] next[j]).descriptor.id by {
                if j == acc.len() {
                    assert(next[i] == acc[i]);
                    if acc[i].descriptor.id == e.descriptor.id {
                        assert(has_id(acc, e.descriptor.id));
                    }
                } else {
                    assert(next[i] == acc[i] && next[j] == acc[j]);
                }
            }
            assert forall|i: int| 0 <= i < next.len() implies (#[trigger] next[i]).descriptor.compression
                == ChunkCompression::Uncompressed && 0 <= next[i].offset && 0 <= next[i].size
                && next[i].offset + next[i].size <= buf.len() && fnv1a64_spec(
                buf.subrange(next[i].offset, next[i].offset + next[i].size),
            ) == next[i].checksum by {
                if i < acc.len() {
                    assert(next[i] == acc[i]);
                }
            }
            lemma_rd_entries_well_formed(buf, p, (count - 1) as nat, next);
        }
    }
}

/// What a successful parse guarantees of the buffer and its chunks: the
/// magic bytes, format version zero, pairwise distinct chunk ids, no
/// compression, and every chunk's bytes a range of the buffer (whose
/// checksum the index records and the parse has compared).
pub proof fn law_parsed_container_is_well_formed(buf: Seq<u8>)
    requires
        spec_parse(buf) is Ok,
    ensures
        buf.subrange(0, 8) == magic(),
        rd_u16(buf, 8) == Some((EXPERIMENTAL_V0_NUMBER, 10int)),
        distinct_ids(spec_parse(buf)->Ok_0.chunks),
        forall|i: int|
            0 <= i < spec_parse(buf)->Ok_0.chunks.len() ==> (
            #[trigger] spec_parse(buf)->Ok_0.chunks[i]).0.compression
                == ChunkCompression::Uncompressed,
        forall|i: int|
            0 <= i < spec_parse(buf)->Ok_0.chunks.len() ==> lies_in(
                buf,
                (#[trigger] spec_parse(buf)->Ok_0.chunks[i]).1,
            ),
{
    let c = spec_parse(buf)->Ok_0;
    let (identity, p2) = rd_identity(buf, 10)->Ok_0;
    let (metadata, p3) = rd_bytes(buf, p2)->Some_0;
    let (count, p4) = rd_u32(buf, p3)->Some_0;
    lemma_rd_entries_well_formed(buf, p4, count as nat, Seq::empty());
    let es = rd_entries(buf, p4, count as nat, Seq::empty())->Ok_0;
    assert(c.chunks == entry_chunks(buf, es));
    assert forall|i: int, j: int| 0 <= i < j < c.chunks.len() implies (#[trigger] c.chunks[i]).0.id
        != (#[trigger] c.chunks[j]).0.id by {
        assert(c.chunks[i].0 == es[i].descriptor && c.chunks[j].0 == es[j].descriptor);
    }
    assert forall|i: int| 0 <= i < c.chunks.len() implies lies_in(buf, (#[trigger] c.chunks[i]).1) by {
        let e = es[i];
        assert(c.chunks[i].1 == buf.subrange(e.offset, e.offset + e.size));
        assert(c.chunks[i].1.len() == e.size);
        assert(buf.subrange(e.offset, e.offset + c.chunks[i].1.len()) == c.chunks[i].1);
    }
    assert forall|i: int| 0 <= i < c.chunks.len() implies (#[trigger] c.chunks[i]).0.compression
        == ChunkCompression::Uncompressed by {
        assert(c.chunks[i].0 == es[i].descriptor);
    }
}

/// The index entries a successful parse of `buf` read, in order.
pub open spec fn parsed_index(buf: Seq<u8>) -> Seq<EntryView> {
    let (identity, p2) = rd_identity(buf, 10)->Ok_0;
    let (metadata, p3) = rd_bytes(buf, p2)->Some_0;
    let (count, p4) = rd_u32(buf, p3)->Some_0;
    rd_entries(buf, p4, count as nat, Seq::empty())->Ok_0
}

/// Every chunk a successful parse hands out is the range of the buffer that
/// its index entry names, and the FNV-1a checksum of its bytes is the one
/// that entry records.
pub proof fn law_parsed_chunks_match_their_index(buf: Seq<u8>)
    requires
        spec_parse(buf) is Ok,
    ensures
        parsed_index(buf).len() == spec_parse(buf)->Ok_0.chunks.len(),
        forall|i: int|
            0 <= i < spec_parse(buf)->Ok_0.chunks.len() ==> {
                let e = parsed_index(buf)[i];
                &&& (#[trigger] spec_parse(buf)->Ok_0.chunks[i]).0 == e.descriptor
                &&& 0 <= e.offset && 0 <= e.size && e.offset + e.size <= buf.len()
                &&& spec_parse(buf)->Ok_0.chunks[i].1 == buf.subrange(e.offset, e.offset + e.size)
                &&& fnv1a64_spec(spec_parse(buf)->Ok_0.chunks[i].1) == e.checksum
            },
{
    let c = spec_parse(buf)->Ok_0;
    let (identity, p2) = rd_identity(buf, 10)->Ok_0;
    let (metadata, p3) = rd_bytes(buf, p2)->Some_0;
    let (count, p4) = rd_u32(buf, p3)->Some_0;
    lemma_rd_entries_well_formed(buf, p4, count as nat, Seq::empty());
    let es = parsed_index(buf);
    assert(c.chunks == entry_chunks(buf, es));
    assert forall|i: int| 0 <= i < c.chunks.len() implies {
        let e = es[i];
        &&& (#[trigger] c.chunks[i]).0 == e.descriptor
        &&& 0 <= e.offset && 0 <= e.size && e.offset + e.size <= buf.len()
        &&& c.chunks[i].1 == buf.subrange(e.offset, e.offset + e.size)
        &&& fnv1a64_spec(c.chunks[i].1) == e.checksum
    } by {
        assert(c.chunks[i] == (es[i].descriptor, buf.subrange(es[i].offset, es[i].offset + es[i].size)));
    }
}

/// Writing an identity and reading it back, wherever it stands in a buffer,
/// gives the identity and the position just past the bytes written.
pub proof fn law_identity_round_trip(prefix: Seq<u8>, c: ClassifiedView, rest: Seq<u8>)
    requires
        identity_encodable(c),
    ensures
        rd_identity(prefix + enc_identity(c) + rest, prefix.len() as int) == Ok::<
            (ClassifiedView, int),
            ContainerFault,
        >((c, (prefix.len() + enc_identity(c).len()) as int)),
{
    let buf = prefix + enc_identity(c) + rest;
    assert(buf.subrange(prefix.len() as int, (prefix.len() + enc_identity(c).len()) as int) =~= enc_identity(c));
    assert(at(buf, prefix.len() as int, enc_identity(c))) by {
        reveal(at);
    }
    lemma_rd_identity(buf, prefix.len() as int, c);
}

/// An identity tag other than package (`0`) or asset (`1`) is refused and
/// named in the error.
pub proof fn law_unknown_identity_tag(buf: Seq<u8>, pos: int)
    requires
        0 <= pos < buf.len(),
        buf[pos] != IDENTITY_TAG_PACKAGE,
        buf[pos] != IDENTITY_TAG_ASSET,
    ensures
        rd_identity(buf, pos) == Err::<(ClassifiedView, int), ContainerFault>(
            ContainerFault::InvalidIdentity("unknown identity tag "@ + crate::text::decimal_text(buf[pos] as u64)),
        ),
{
    assert(buf.subrange(pos, pos + 1)[0] == buf[pos]);
}

/// The encoding's layout: it starts with the magic bytes, the chunks'
/// bytes end it back to back in push order, and its length is where they
/// start plus their total size.
pub proof fn law_encoding_layout(c: ContainerContent)
    ensures
        spec_encode(c).subrange(0, 8) == magic(),
        spec_encode(c).len() == data_start(c) + data_total(c.chunks),
        spec_encode(c).subrange(data_start(c), spec_encode(c).len() as int) == enc_data(c.chunks),
{
    lemma_encode_len(c);
    lemma_enc_index_len(c.chunks, data_start(c));
    lemma_enc_data_len(c.chunks);
    let e = spec_encode(c);
    assert(header_prefix(c).subrange(0, 8) =~= magic());
    assert(e.subrange(0, 8) =~= magic());
    assert(e.subrange(data_start(c), e.len() as int) =~= enc_data(c.chunks));
}

/// Each index entry of an encoding: reading it where the index places it
/// gives the chunk's descriptor, the offset at which its bytes start (after
/// the header, the index and the chunks pushed before it), its size and the
/// FNV-1a checksum of its bytes, and ends where the next entry begins.
pub proof fn law_index_entry_layout(c: ContainerContent, i: int)
    requires
        encodable(c),
        0 <= i < c.chunks.len(),
    ensures
        rd_entry(
            spec_encode(c),
            header_prefix(c).len() + index_len(c.chunks.take(i)),
            entries_upto(c, i),
        ) == Ok::<(EntryView, int), ContainerFault>(
            (
                (EntryView {
                    descriptor: c.chunks[i].0,
                    offset: data_start(c) + data_total(c.chunks.take(i)),
                    size: c.chunks[i].1.len() as int,
                    checksum: fnv1a64_spec(c.chunks[i].1),
                }),
                header_prefix(c).len() + index_len(c.chunks.take(i + 1)),
            ),
        ),
{
    lemma_read_entry(c, i);
}

} // verus!