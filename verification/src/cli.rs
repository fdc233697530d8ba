//! What the developer tools compute: argument arity checks, the
//! deterministic `pack-test` container, the chunk listing order of
//! `inspect`, and the text of their report lines. Reading and writing files
//! and printing stay with the binaries.

use vstd::prelude::*;
use vstd::string::StrSliceExecFns;
use vstd::utf8::encode_utf8;

use crate::chunk::{ChunkCompression, ChunkDescriptor, ChunkId, DescriptorView};
use crate::container::{ContainerContent, ContainerWriter};
use crate::filename::{ClassifiedFilename, ClassifiedView};
use crate::text::{decimal, decimal_text, join, owned};

verus! {

broadcast use vstd::seq_lib::to_multiset_insert;

/// Exactly one positional argument, or the usage text.
pub fn one_arg(args: Vec<String>, usage: &str) -> (res: Result<String, String>)
    ensures
        args.len() == 1 ==> (res matches Ok(a) && a@ == args@[0]@),
        args.len() != 1 ==> (res matches Err(u) && u@ == usage@),
{
    let mut args = args;
    if args.len() == 1 {
        match args.pop() {
            Some(a) => Ok(a),
            None => Err(owned(usage)),
        }
    } else {
        Err(owned(usage))
    }
}

/// Exactly two positional arguments, in order, or the usage text.
pub fn two_args(args: Vec<String>, usage: &str) -> (res: Result<(String, String), String>)
    ensures
        args.len() == 2 ==> (res matches Ok((a, b)) && a@ == args@[0]@ && b@ == args@[1]@),
        args.len() != 2 ==> (res matches Err(u) && u@ == usage@),
{
    let mut args = args;
    if args.len() == 2 {
        let second = args.pop();
        let first = args.pop();
        match (first, second) {
            (Some(a), Some(b)) => Ok((a, b)),
            _ => Err(owned(usage)),
        }
    } else {
        Err(owned(usage))
    }
}

/// The metadata payload of the `pack-test` fixture.
pub const PACK_TEST_METADATA: &'static str = "northstar-cli pack-test fixture";

/// The bytes `0, 1, ..., 31`: the second chunk of the `pack-test` fixture.
pub open spec fn counting_bytes() -> Seq<u8> {
    Seq::new(32, |i: int| i as u8)
}

/// The `pack-test` fixture: a two-chunk container self-identified as
/// `identity`, with a fixed metadata payload, a `greeting` chunk and a
/// `numbers` chunk.
pub open spec fn pack_test_content(identity: ClassifiedView) -> ContainerContent {
    ContainerContent {
        identity,
        metadata: encode_utf8(PACK_TEST_METADATA@),
        chunks: seq![
            (
                DescriptorView {
                    id: 0,
                    kind: "greeting"@,
                    compression: ChunkCompression::Uncompressed,
                },
                encode_utf8("hello, nspkg!"@),
            ),
            (
                DescriptorView {
                    id: 1,
                    kind: "numbers"@,
                    compression: ChunkCompression::Uncompressed,
                },
                counting_bytes(),
            ),
        ],
    }
}

/// Builds the small, deterministic `pack-test` container. Its two chunk ids
/// differ, so neither push can be refused.
pub fn pack_test_writer(identity: ClassifiedFilename) -> (w: ContainerWriter)
    ensures
        w@ == pack_test_content(identity@),
{
    let ghost id_view = identity@;
    let mut writer = ContainerWriter::new(identity).with_metadata(
        PACK_TEST_METADATA.as_bytes_vec(),
    );
    let greeting = "hello, nspkg!".as_bytes_vec();
    let _ = writer.push_chunk(ChunkDescriptor::new(ChunkId(0), "greeting"), greeting);
    let mut numbers: Vec<u8> = Vec::new();
    let mut b: u8 = 0;
    while b < 32
        invariant
            b <= 32,
            numbers@ == Seq::new(b as nat, |i: int| i as u8),
        decreases 32 - b,
    {
        numbers.push(b);
        b = b + 1;
        assert(numbers@ =~= Seq::new(b as nat, |i: int| i as u8));
    }
    assert(numbers@ =~= counting_bytes());
    proof {
        let c = writer@.chunks;
        assert(c.len() == 1);
        assert(!crate::container::uses_id(c, 1u32)) by {
            if crate::container::uses_id(c, 1u32) {
                let j = choose|j: int| 0 <= j < c.len() && (#[trigger] c[j]).0.id == 1u32;
                assert(j == 0);
            }
        }
    }
    let _ = writer.push_chunk(ChunkDescriptor::new(ChunkId(1), "numbers"), numbers);
    assert(writer@.chunks =~= pack_test_content(id_view).chunks);
    writer
}

/// The logical content of a list of descriptors.
pub open spec fn descriptor_views(d: Seq<ChunkDescriptor>) -> Seq<DescriptorView> {
    d.map_values(|x: ChunkDescriptor| x@)
}

/// True when the descriptors' ids never decrease.
pub open spec fn sorted_by_id(d: Seq<ChunkDescriptor>) -> bool {
    forall|i: int, j: int| 0 <= i < j < d.len() ==> (#[trigger] d[i]).id.0 <= (#[trigger] d[j]).id.0
}

/// The descriptors of a container in ascending id order, as `inspect`
/// lists them: the same descriptors, rearranged.
pub fn descriptors_by_id(descriptors: &[ChunkDescriptor]) -> (sorted: Vec<ChunkDescriptor>)
    ensures
        descriptor_views(sorted@).to_multiset() == descriptor_views(descriptors@).to_multiset(),
        sorted_by_id(sorted@),
{
    let mut sorted: Vec<ChunkDescriptor> = Vec::new();
    let n = descriptors.len();
    let mut k: usize = 0;
    assert(descriptor_views(descriptors@.take(0)) =~= Seq::<DescriptorView>::empty());
    assert(descriptor_views(sorted@) =~= Seq::<DescriptorView>::empty());
    while k < n
        invariant
            n == descriptors@.len(),
            k <= n,
            sorted_by_id(sorted@),
            descriptor_views(sorted@).to_multiset() == descriptor_views(
                descriptors@.take(k as int),
            ).to_multiset(),
        decreases n - k,
    {
        let d = descriptors[k].clone();
        let key = d.id.0;
        let mut p: usize = 0;
        while p < sorted.len() && sorted[p].id.0 <= key
            invariant
                p <= sorted@.len(),
                forall|i: int| 0 <= i < p ==> (#[trigger] sorted@[i]).id.0 <= key,
            decreases sorted@.len() - p,
        {
            p = p + 1;
        }
        let ghost before = sorted@;
        proof {
            assert forall|i: int| p <= i < before.len() implies (#[trigger] before[i]).id.0
                > key by {
                assert(before[p as int].id.0 > key);
                if i > p {
                    assert(before[p as int].id.0 <= before[i].id.0);
                }
            }
        }
        sorted.insert(p, d);
        proof {
            assert(sorted@ == before.insert(p as int, d));
            assert(descriptor_views(sorted@) =~= descriptor_views(before).insert(p as int, d@));
            assert(descriptor_views(descriptors@.take(k + 1)) =~= descriptor_views(
                descriptors@.take(k as int),
            ).push(descriptors@[k as int]@));
            assert(d@ == descriptors@[k as int]@);
            vstd::seq_lib::to_multiset_build(
                descriptor_views(descriptors@.take(k as int)),
                d@,
            );
            assert forall|i: int, j: int| 0 <= i < j < sorted@.len() implies (
            #[trigger] sorted@[i]).id.0 <= (#[trigger] sorted@[j]).id.0 by {
                if j < p {
                } else if j == p {
                } else if i < p {
                    assert(sorted@[j] == before[j - 1]);
                } else if i == p {
                    assert(sorted@[j] == before[j - 1]);
                } else {
                    assert(sorted@[i] == before[i - 1]);
                    assert(sorted@[j] == before[j - 1]);
                }
            }
        }
        k = k + 1;
    }
    assert(descriptors@.take(n as int) =~= descriptors@);
    sorted
}

/// How a classified file is described: `complete package (puid = …)` or
/// `asset (puid = …, category = …)`.
pub open spec fn spec_classification_text(c: ClassifiedView) -> Seq<char> {
    match c {
        ClassifiedView::Package(puid) => "complete package (puid = "@ + puid + ")"@,
        ClassifiedView::Asset(puid, category) => "asset (puid = "@ + puid + ", category = "@
            + category + ")"@,
    }
}

/// Describes a classified file (or a container's self-identity).
pub fn classification_text(c: &ClassifiedFilename) -> (s: String)
    ensures
        s@ == spec_classification_text(c@),
{
    match c {
        ClassifiedFilename::Package { puid } => {
            let s = join(owned("complete package (puid = "), puid.as_str());
            join(s, ")")
        },
        ClassifiedFilename::Asset { puid, category } => {
            let s = join(owned("asset (puid = "), puid.as_str());
            let s = join(s, ", category = ");
            let s = join(s, category.as_str());
            join(s, ")")
        },
    }
}

/// `text` with `fill` added on the left until it is `width` long; text
/// already that long is left as it is.
pub open spec fn pad_left(text: Seq<char>, width: nat, fill: char) -> Seq<char> {
    if text.len() < width {
        Seq::new((width - text.len()) as nat, |i: int| fill) + text
    } else {
        text
    }
}

/// `text` with `fill` added on the right until it is `width` long.
pub open spec fn pad_right(text: Seq<char>, width: nat, fill: char) -> Seq<char> {
    if text.len() < width {
        text + Seq::new((width - text.len()) as nat, |i: int| fill)
    } else {
        text
    }
}

/// Pads `text` on the left (when `left`) or the right to `width` characters.
fn padded(text: &str, width: usize, fill: &str, left: bool) -> (s: String)
    requires
        fill@.len() == 1,
    ensures
        left ==> s@ == pad_left(text@, width as nat, fill@[0]),
        !left ==> s@ == pad_right(text@, width as nat, fill@[0]),
{
    let ghost f = fill@[0];
    assert(fill@ =~= seq![f]);
    let chars = crate::text::chars_of(text);
    let len = chars.len();
    let mut pad = String::new();
    let mut k: usize = len;
    assert(pad@ =~= Seq::<char>::empty());
    while k < width
        invariant
            len <= k <= width || (len > width && k == len),
            len == text@.len(),
            fill@ == seq![f],
            pad@ == Seq::new((k - len) as nat, |i: int| f),
        decreases width - k,
    {
        pad = join(pad, fill);
        k = k + 1;
        assert(pad@ =~= Seq::new((k - len) as nat, |i: int| f));
    }
    if left {
        let r = join(pad, text);
        assert(len < width ==> r@ =~= pad_left(text@, width as nat, f));
        assert(len >= width ==> r@ =~= pad_left(text@, width as nat, f));
        r
    } else {
        let r = join(owned(text), pad.as_str());
        assert(len < width ==> r@ =~= pad_right(text@, width as nat, f));
        assert(len >= width ==> r@ =~= pad_right(text@, width as nat, f));
        r
    }
}

/// The name of a compression marker in tool output. Uncompressed chunks
/// read `None`, the word the version-zero format uses for "no compression".
pub open spec fn spec_compression_name(c: ChunkCompression) -> Seq<char> {
    match c {
        ChunkCompression::Uncompressed => "None"@,
    }
}

/// `    #<id, padded to 4> kind=<kind, padded to 16> compression=<name> size=<size>`:
/// one row of `inspect`'s chunk listing.
pub open spec fn spec_chunk_row(d: DescriptorView, size: u64) -> Seq<char> {
    "    #"@ + pad_right(decimal_text(d.id as u64), 4, ' ') + " kind="@ + pad_right(
        d.kind,
        16,
        ' ',
    ) + " compression="@ + spec_compression_name(d.compression) + " size="@ + decimal_text(size)
}

/// One row of `inspect`'s chunk listing.
pub fn chunk_row(d: &ChunkDescriptor, size: u64) -> (s: String)
    ensures
        s@ == spec_chunk_row(d@, size),
{
    proof {
        reveal_strlit(" ");
    }
    let id_text = decimal(d.id.0 as u64);
    let s = join(owned("    #"), padded(id_text.as_str(), 4, " ", false).as_str());
    let s = join(s, " kind=");
    let s = join(s, padded(d.kind.as_str(), 16, " ", false).as_str());
    let s = join(s, " compression=");
    let s = match d.compression {
        ChunkCompression::Uncompressed => join(s, "None"),
    };
    let s = join(s, " size=");
    join(s, decimal(size).as_str())
}

/// `chunk-<id, zero-padded to 4>.<kind>.bin`: where `unpack-test` writes a
/// chunk's bytes.
pub open spec fn spec_chunk_file_name(d: DescriptorView) -> Seq<char> {
    "chunk-"@ + pad_left(decimal_text(d.id as u64), 4, '0') + "."@ + d.kind + ".bin"@
}

/// The file name `unpack-test` gives a chunk.
pub fn chunk_file_name(d: &ChunkDescriptor) -> (s: String)
    ensures
        s@ == spec_chunk_file_name(d@),
{
    proof {
        reveal_strlit("0");
    }
    let id_text = decimal(d.id.0 as u64);
    let s = join(owned("chunk-"), padded(id_text.as_str(), 4, "0", true).as_str());
    let s = join(s, ".");
    let s = join(s, d.kind.as_str());
    join(s, ".bin")
}

/// `[ok]   <label>: <detail>` or `[warn] <label>: <detail>`: one line of
/// `doctor`'s report.
pub open spec fn spec_status_line(ok: bool, label: Seq<char>, detail: Seq<char>) -> Seq<char> {
    (if ok {
        "[ok]  "@
    } else {
        "[warn]"@
    }) + " "@ + label + ": "@ + detail
}

/// One line of `doctor`'s report.
pub fn status_line(ok: bool, label: &str, detail: &str) -> (s: String)
    ensures
        s@ == spec_status_line(ok, label@, detail@),
{
    let marker = if ok {
        owned("[ok]  ")
    } else {
        owned("[warn]")
    };
    let s = join(marker, " ");
    let s = join(s, label);
    let s = join(s, ": ");
    join(s, detail)
}

/// `<dir> (mounted package dir)` for one entry, `… dirs)` otherwise.
pub open spec fn spec_package_dir_detail(dir: Seq<char>, entries: u64) -> Seq<char> {
    dir + " (mounted package dir"@ + (if entries == 1 {
        ""@
    } else {
        "s"@
    }) + ")"@
}

/// `doctor`'s description of the mounted-packages directory.
pub fn package_dir_detail(dir: &str, entries: u64) -> (s: String)
    ensures
        s@ == spec_package_dir_detail(dir@, entries),
{
    let s = join(owned(dir), " (mounted package dir");
    let s = if entries == 1 {
        join(s, "")
    } else {
        join(s, "s")
    };
    join(s, ")")
}

} // verus!
