//! The resource pack of an application: its layout, how it is built from a tree of files or from
//! an earlier pack, and how it is read.
//!
//! A pack begins with twelve bytes that hold the version and the number of resources. An index
//! follows, with the number and the offset of each resource and the offset of the end. The first
//! resource is a JSON manifest that names the others.

use crate::codec::{canonical, decode, encode, json_parse, json_text, sha256_bytes, sha256_hex};
use crate::json::{json_views, Json, JsonView};
use crate::rpc::{fails, rpc_error, RpcError, RpcErrorView};
use crate::text::{concat2, concat4, decimal, str_eq, str_lt, text_lt, u128_text, views};
use vstd::prelude::*;
use vstd::utf8::encode_utf8;

verus! {

/// The number that two bytes write, the low one first.
pub open spec fn le16(b: Seq<u8>, at: int) -> int {
    b[at] as int + 256 * (b[at + 1] as int)
}

/// The number that four bytes write, the lowest first.
pub open spec fn le32(b: Seq<u8>, at: int) -> int {
    b[at] as int + 256 * (b[at + 1] as int) + 65536 * (b[at + 2] as int) + 16777216 * (b[at + 3] as int)
}

/// A number below 2^16 in two bytes, the low one first.
pub open spec fn bytes16(n: int) -> Seq<u8> {
    seq![(n % 256) as u8, ((n / 256) % 256) as u8]
}

/// A number below 2^32 in four bytes, the lowest first.
pub open spec fn bytes32(n: int) -> Seq<u8> {
    seq![
        (n % 256) as u8,
        ((n / 256) % 256) as u8,
        ((n / 65536) % 256) as u8,
        ((n / 16777216) % 256) as u8,
    ]
}

/// A number written in four bytes is read back.
pub proof fn lemma_le32(n: int)
    requires
        0 <= n <= u32::MAX,
    ensures
        le32(bytes32(n), 0) == n,
        bytes32(n).len() == 4,
{
}

/// A number written in two bytes is read back.
pub proof fn lemma_le16(n: int)
    requires
        0 <= n <= u16::MAX,
    ensures
        le16(bytes16(n), 0) == n,
        bytes16(n).len() == 2,
{
}

fn read16(b: &Vec<u8>, at: usize) -> (r: u64)
    requires
        at + 2 <= b@.len(),
    ensures
        r == le16(b@, at as int),
{
    let n = b.len();
    (b[at] as u64) + 256 * (b[at + 1] as u64)
}

fn read32(b: &Vec<u8>, at: usize) -> (r: u64)
    requires
        at + 4 <= b@.len(),
    ensures
        r == le32(b@, at as int),
{
    let n = b.len();
    (b[at] as u64) + 256 * (b[at + 1] as u64) + 65536 * (b[at + 2] as u64) + 16777216 * (b[at + 3] as u64)
}

fn write16(out: &mut Vec<u8>, n: u64)
    ensures
        final(out)@ == old(out)@ + bytes16(n as int),
{
    let ghost start = out@;
    out.push((n % 256) as u8);
    out.push(((n / 256) % 256) as u8);
    assert(out@ =~= start + bytes16(n as int));
}

fn write32(out: &mut Vec<u8>, n: u64)
    ensures
        final(out)@ == old(out)@ + bytes32(n as int),
{
    let ghost start = out@;
    out.push((n % 256) as u8);
    out.push(((n / 256) % 256) as u8);
    out.push(((n / 65536) % 256) as u8);
    out.push(((n / 16777216) % 256) as u8);
    assert(out@ =~= start + bytes32(n as int));
}

fn write_all(out: &mut Vec<u8>, bytes: &[u8])
    ensures
        final(out)@ == old(out)@ + bytes@,
{
    let ghost start = out@;
    let mut i: usize = 0;
    assert(start + bytes@.take(0) =~= start);
    while i < bytes.len()
        invariant
            i <= bytes.len(),
            out@ == start + bytes@.take(i as int),
        decreases bytes.len() - i,
    {
        out.push(bytes[i]);
        assert(out@ =~= start + bytes@.take(i + 1));
        i += 1;
    }
    assert(bytes@.take(bytes@.len() as int) =~= bytes@);
}

/// A file that goes into a pack.
#[derive(Debug)]
pub struct PackResource {
    pub path: String,
    pub content: Vec<u8>,
}

/// What a file that goes into a pack holds.
pub struct ResourceView {
    pub path: Seq<char>,
    pub content: Seq<u8>,
}

impl View for PackResource {
    type V = ResourceView;

    open spec fn view(&self) -> ResourceView {
        ResourceView { path: self.path@, content: self.content@ }
    }
}

/// What each of some files holds.
pub open spec fn resource_views(rs: Seq<PackResource>) -> Seq<ResourceView> {
    rs.map_values(|r: PackResource| r@)
}

/// Where a pack holds the content of a path.
#[derive(Debug, PartialEq, Eq)]
pub struct PackEntry {
    pub path: String,
    pub offset: u64,
    pub length: u64,
}

/// Where a pack holds the content of a path.
pub struct EntryView {
    pub path: Seq<char>,
    pub offset: int,
    pub length: int,
}

impl View for PackEntry {
    type V = EntryView;

    open spec fn view(&self) -> EntryView {
        EntryView { path: self.path@, offset: self.offset as int, length: self.length as int }
    }
}

/// What each of some entries holds.
pub open spec fn entry_views(es: Seq<PackEntry>) -> Seq<EntryView> {
    es.map_values(|e: PackEntry| e@)
}

/// The entry of a path.
pub open spec fn entry_of(es: Seq<EntryView>, path: Seq<char>) -> Option<EntryView>
    decreases es.len(),
{
    if es.len() == 0 {
        None
    } else if es.last().path == path {
        Some(es.last())
    } else {
        entry_of(es.drop_last(), path)
    }
}

fn find_entry<'a>(es: &'a Vec<PackEntry>, path: &str) -> (r: Option<&'a PackEntry>)
    ensures
        match r {
            Some(e) => entry_of(entry_views(es@), path@) == Some(e@) && es@.contains(*e),
            None => entry_of(entry_views(es@), path@) is None,
        },
{
    let ghost all = entry_views(es@);
    let mut i: usize = es.len();
    assert(all.take(i as int) =~= all);
    while i > 0
        invariant
            i <= es.len(),
            all == entry_views(es@),
            entry_of(all, path@) == entry_of(all.take(i as int), path@),
        decreases i,
    {
        i -= 1;
        proof {
            assert(all.take(i + 1).drop_last() =~= all.take(i as int));
            assert(all.take(i + 1).last() == es@[i as int]@);
        }
        if str_eq(es[i].path.as_str(), path) {
            return Some(&es[i]);
        }
    }
    None
}

/// Whether a path is one of some paths, or lies below one.
pub open spec fn below(path: Seq<char>, prefixes: Seq<Seq<char>>) -> bool {
    exists|i: int|
        0 <= i < prefixes.len() && (path == #[trigger] prefixes[i] || (prefixes[i].is_prefix_of(path) && path.len()
            > prefixes[i].len() && path[prefixes[i].len() as int] == '/'))
}

/// Whether `path` is one of some paths, or lies below one.
pub fn path_matches_prefix(path: &str, prefixes: &Vec<String>) -> (r: bool)
    ensures
        r == below(path@, views(prefixes@)),
{
    let mut i: usize = 0;
    while i < prefixes.len()
        invariant
            i <= prefixes.len(),
            forall|k: int|
                0 <= k < i ==> {
                    let p = #[trigger] views(prefixes@)[k];
                    !(path@ == p || (p.is_prefix_of(path@) && path@.len() > p.len() && path@[p.len() as int] == '/'))
                },
        decreases prefixes.len() - i,
    {
        let ghost p = views(prefixes@)[i as int];
        assert(p == prefixes@[i as int]@);
        if str_eq(path, prefixes[i].as_str()) {
            return true;
        }
        if crate::text::starts_with(path, prefixes[i].as_str()) {
            let n = prefixes[i].as_str().unicode_len();
            if n < path.unicode_len() && path.get_char(n) == '/' {
                return true;
            }
        }
        i += 1;
    }
    false
}

/// The files with one put in its place by path, before those of the same path.
pub open spec fn insert_resource(rs: Seq<ResourceView>, r: ResourceView) -> Seq<ResourceView>
    decreases rs.len(),
{
    if rs.len() > 0 && text_lt(rs[0].path, r.path) {
        seq![rs[0]] + insert_resource(rs.skip(1), r)
    } else {
        seq![r] + rs
    }
}

/// The files in the order of their paths; those of the same path in the order given.
pub open spec fn sorted(rs: Seq<ResourceView>) -> Seq<ResourceView>
    decreases rs.len(),
{
    if rs.len() == 0 {
        rs
    } else {
        insert_resource(sorted(rs.skip(1)), rs[0])
    }
}

fn put_resource(rs: &mut Vec<PackResource>, r: PackResource)
    ensures
        resource_views(final(rs)@) == insert_resource(resource_views(old(rs)@), r@),
{
    let ghost all = resource_views(rs@);
    let mut i: usize = 0;
    proof {
        assert(all.skip(0) =~= all);
        assert(all.take(0) + insert_resource(all, r@) =~= insert_resource(all, r@));
    }
    while i < rs.len() && str_lt(rs[i].path.as_str(), r.path.as_str())
        invariant
            i <= rs.len(),
            all == resource_views(rs@),
            *rs == *old(rs),
            insert_resource(all, r@) == all.take(i as int) + insert_resource(all.skip(i as int), r@),
        decreases rs.len() - i,
    {
        proof {
            let rest = all.skip(i as int);
            assert(rest[0] == rs@[i as int]@);
            assert(rest.skip(1) =~= all.skip(i + 1));
            assert(all.take(i as int) + (seq![rest[0]] + insert_resource(rest.skip(1), r@)) =~= all.take(i + 1)
                + insert_resource(all.skip(i + 1), r@));
        }
        i += 1;
    }
    let ghost v = r@;
    proof {
        let rest = all.skip(i as int);
        if i < rs@.len() {
            assert(rest[0] == rs@[i as int]@);
        }
        assert(insert_resource(rest, v) == seq![v] + rest);
        assert(all.take(i as int) + (seq![v] + rest) =~= all.insert(i as int, v));
    }
    rs.insert(i, r);
    assert(resource_views(rs@) =~= all.insert(i as int, v));
}

fn sort_resources(resources: Vec<PackResource>) -> (r: Vec<PackResource>)
    ensures
        resource_views(r@) == sorted(resource_views(resources@)),
        r@.len() == resources@.len(),
{
    let ghost all = resource_views(resources@);
    let mut rest = resources;
    let mut out: Vec<PackResource> = Vec::new();
    proof {
        assert(all.skip(all.len() as int) =~= Seq::empty());
        assert(resource_views(out@) =~= Seq::empty());
    }
    while rest.len() > 0
        invariant
            rest@.len() <= all.len(),
            resource_views(rest@) == all.take(rest@.len() as int),
            resource_views(out@) == sorted(all.skip(rest@.len() as int)),
            out@.len() + rest@.len() == all.len(),
        decreases rest@.len(),
    {
        let ghost n = rest@.len();
        let ghost whole = rest@;
        let item = rest.pop().unwrap();
        proof {
            assert(resource_views(whole)[n - 1] == item@);
            assert(resource_views(rest@) =~= all.take(n - 1));
            assert(all.skip(n - 1).skip(1) =~= all.skip(n as int));
            assert(all.skip(n - 1)[0] == item@);
            lemma_insert_len(resource_views(out@), item@);
        }
        put_resource(&mut out, item);
        assert(out@.len() == resource_views(out@).len());
    }
    assert(all.skip(0) =~= all);
    out
}

proof fn lemma_insert_len(rs: Seq<ResourceView>, r: ResourceView)
    ensures
        insert_resource(rs, r).len() == rs.len() + 1,
    decreases rs.len(),
{
    if rs.len() > 0 && text_lt(rs[0].path, r.path) {
        lemma_insert_len(rs.skip(1), r);
    }
}

/// The first path that two files in a row share.
pub open spec fn repeated(rs: Seq<ResourceView>, from: int) -> Option<Seq<char>>
    decreases rs.len() - from,
{
    if from < 0 || from + 1 >= rs.len() {
        None
    } else if rs[from].path == rs[from + 1].path {
        Some(rs[from].path)
    } else {
        repeated(rs, from + 1)
    }
}

/// The error that a pack cannot be read.
pub open spec fn invalid(message: Seq<char>) -> RpcErrorView {
    rpc_error("BASE_DATAPACK_INVALID"@, message)
}

/// The offset in the index of a pack.
pub open spec fn offset_in(b: Seq<u8>, i: int) -> int {
    le32(b, 14 + 6 * i)
}

/// Whether the offsets of a pack never go back.
pub open spec fn offsets_grow(b: Seq<u8>, count: int) -> bool {
    forall|i: int, j: int| 0 <= i <= j <= count ==> #[trigger] offset_in(b, i) <= #[trigger] offset_in(b, j)
}

/// Why the header and the index of a pack cannot be read, if so.
pub open spec fn header_error(b: Seq<u8>, path: Seq<char>) -> Option<RpcErrorView> {
    let short = invalid(path + ": failed to fill whole buffer"@);
    let count = le16(b, 8);
    if b.len() < 12 {
        Some(short)
    } else if le32(b, 0) != 5 {
        Some(invalid("base pak is not DataPack version 5"@))
    } else if count < 1 {
        Some(invalid("base pak has no manifest entry"@))
    } else if b.len() < 12 + 6 * (count + 1) {
        Some(short)
    } else if !offsets_grow(b, count) {
        Some(invalid("base pak offsets are not monotonic"@))
    } else if offset_in(b, count) > b.len() {
        Some(invalid("base pak offsets exceed file size"@))
    } else {
        None
    }
}

/// The entries for the first `n` items of a manifest.
pub open spec fn entries_upto(b: Seq<u8>, items: Seq<JsonView>, n: int) -> Option<Seq<EntryView>>
    decreases n,
{
    if n <= 0 {
        Some(Seq::empty())
    } else {
        match (entries_upto(b, items, n - 1), items[n - 1].get_str("path"@)) {
            (Some(es), Some(path)) => Some(
                es.push(
                    EntryView {
                        path,
                        offset: offset_in(b, n),
                        length: offset_in(b, n + 1) - offset_in(b, n),
                    },
                ),
            ),
            _ => None,
        }
    }
}

/// The entries of a pack with `count` resources whose manifest was read, or why it has none.
pub open spec fn entries_view(b: Seq<u8>, count: int, manifest: Result<JsonView, Seq<char>>) -> Result<
    Seq<EntryView>,
    RpcErrorView,
> {
    match manifest {
        Err(message) => Err(invalid(message)),
        Ok(m) => match m.get_array("entries"@) {
            None => Err(invalid("base pak manifest has no entries"@)),
            Some(items) => if items.len() + 1 != count {
                Err(invalid("base pak manifest/index entry counts differ"@))
            } else {
                match entries_upto(b, items, items.len() as int) {
                    Some(es) => Ok(es),
                    None => Err(invalid("base pak entry has no path"@)),
                }
            },
        },
    }
}

/// The entries of a pack, or why it cannot be read.
pub open spec fn read_view(b: Seq<u8>, path: Seq<char>) -> Result<Seq<EntryView>, RpcErrorView> {
    match header_error(b, path) {
        Some(e) => Err(e),
        None => entries_view(b, le16(b, 8), json_parse(b.subrange(offset_in(b, 0), offset_in(b, 1)))),
    }
}

proof fn lemma_missing_path(b: Seq<u8>, items: Seq<JsonView>, k: int, n: int)
    requires
        0 < k <= n <= items.len(),
        items[k - 1].get_str("path"@) is None,
    ensures
        entries_upto(b, items, n) is None,
    decreases n,
{
    if k < n {
        lemma_missing_path(b, items, k, n - 1);
    }
}

/// Whether entries lie inside a pack.
pub open spec fn inside(es: Seq<PackEntry>, len: int) -> bool {
    forall|i: int| 0 <= i < es.len() ==> (#[trigger] es[i]).offset + es[i].length <= len
}

fn read_offsets(bytes: &Vec<u8>, count: usize) -> (r: Vec<u64>)
    requires
        count <= 65535,
        bytes@.len() >= 12 + 6 * (count + 1),
    ensures
        r@.len() == count + 1,
        forall|k: int| 0 <= k <= count ==> r@[k] == #[trigger] offset_in(bytes@, k),
{
    let n = bytes.len();
    let mut offsets: Vec<u64> = Vec::new();
    let mut i: usize = 0;
    while i < count + 1
        invariant
            count <= 65535,
            n == bytes@.len(),
            n >= 12 + 6 * (count + 1),
            i <= count + 1,
            offsets@.len() == i,
            forall|k: int| 0 <= k < i ==> offsets@[k] == #[trigger] offset_in(bytes@, k),
        decreases count + 1 - i,
    {
        let at = 14 + 6 * i;
        let o = read32(bytes, at);
        offsets.push(o);
        i += 1;
    }
    offsets
}

fn never_back(offsets: &Vec<u64>) -> (r: bool)
    requires
        offsets@.len() >= 1,
    ensures
        r == (forall|i: int, j: int| 0 <= i <= j < offsets@.len() ==> offsets@[i] <= offsets@[j]),
{
    let mut i: usize = 0;
    while i + 1 < offsets.len()
        invariant
            i < offsets.len(),
            forall|k: int, m: int| 0 <= k <= m <= i ==> offsets@[k] <= offsets@[m],
        decreases offsets.len() - i,
    {
        if offsets[i] > offsets[i + 1] {
            return false;
        }
        i += 1;
    }
    true
}

fn read_header(bytes: &Vec<u8>, path: &str) -> (r: Result<Vec<u64>, RpcError>)
    ensures
        match r {
            Ok(offsets) => header_error(bytes@, path@) is None && offsets@.len() == le16(bytes@, 8) + 1 && (forall|
                k: int,
            |
                0 <= k < offsets@.len() ==> offsets@[k] == #[trigger] offset_in(bytes@, k)),
            Err(e) => header_error(bytes@, path@) == Some(e@),
        },
{
    let len = bytes.len();
    if len < 12 {
        let message = concat2(path, ": failed to fill whole buffer");
        return Err(RpcError::new("BASE_DATAPACK_INVALID", message.as_str()));
    }
    if read32(bytes, 0) != 5 {
        return Err(RpcError::new("BASE_DATAPACK_INVALID", "base pak is not DataPack version 5"));
    }
    let count = read16(bytes, 8) as usize;
    if count < 1 {
        return Err(RpcError::new("BASE_DATAPACK_INVALID", "base pak has no manifest entry"));
    }
    if len < 12 + 6 * (count + 1) {
        let message = concat2(path, ": failed to fill whole buffer");
        return Err(RpcError::new("BASE_DATAPACK_INVALID", message.as_str()));
    }
    let offsets = read_offsets(bytes, count);
    let grow = never_back(&offsets);
    proof {
        if grow {
            assert forall|i: int, j: int| 0 <= i <= j <= count implies #[trigger] offset_in(bytes@, i)
                <= #[trigger] offset_in(bytes@, j) by {
                assert(offsets@[i] <= offsets@[j]);
            }
        } else {
            let (i, j) = choose|i: int, j: int| 0 <= i <= j < offsets@.len() && offsets@[i] > offsets@[j];
            assert(offset_in(bytes@, i) > offset_in(bytes@, j));
        }
    }
    if !grow {
        return Err(RpcError::new("BASE_DATAPACK_INVALID", "base pak offsets are not monotonic"));
    }
    if offsets[count] > len as u64 {
        return Err(RpcError::new("BASE_DATAPACK_INVALID", "base pak offsets exceed file size"));
    }
    Ok(offsets)
}

fn read_entries(bytes: &Vec<u8>, offsets: &Vec<u64>, manifest: Json) -> (r: Result<Vec<PackEntry>, RpcError>)
    requires
        2 <= offsets@.len() <= 65536,
        offsets_grow(bytes@, offsets@.len() - 1),
        offset_in(bytes@, offsets@.len() - 1) <= bytes@.len(),
        forall|k: int| 0 <= k < offsets@.len() ==> offsets@[k] == #[trigger] offset_in(bytes@, k),
    ensures
        match r {
            Ok(es) => entries_view(bytes@, offsets@.len() - 1, Ok(manifest@)) == Ok::<Seq<EntryView>, RpcErrorView>(
                entry_views(es@),
            ) && inside(es@, bytes@.len() as int),
            Err(e) => entries_view(bytes@, offsets@.len() - 1, Ok(manifest@)) == Err::<
                Seq<EntryView>,
                RpcErrorView,
            >(e@),
        },
{
    let count = offsets.len() - 1;
    let items = match manifest.get_array("entries") {
        Some(a) => a,
        None => return Err(RpcError::new("BASE_DATAPACK_INVALID", "base pak manifest has no entries")),
    };
    if items.len() >= count || items.len() + 1 != count {
        return Err(RpcError::new("BASE_DATAPACK_INVALID", "base pak manifest/index entry counts differ"));
    }
    let ghost b = bytes@;
    let ghost its = json_views(items@);
    let mut out: Vec<PackEntry> = Vec::new();
    let mut k: usize = 0;
    assert(entry_views(out@) =~= Seq::empty());
    while k < items.len()
        invariant
            b == bytes@,
            k <= items.len(),
            items.len() + 1 == count,
            count <= 65535,
            its == json_views(items@),
            offsets@.len() == count + 1,
            offsets_grow(b, count as int),
            offset_in(b, count as int) <= b.len(),
            forall|m: int| 0 <= m < offsets@.len() ==> offsets@[m] == #[trigger] offset_in(b, m),
            entries_upto(b, its, k as int) == Some(entry_views(out@)),
            inside(out@, b.len() as int),
            manifest@.get_array("entries"@) == Some(its),
        decreases items.len() - k,
    {
        assert(its[k as int] == items@[k as int]@);
        let name = match items[k].get_str("path") {
            Some(s) => s,
            None => {
                proof {
                    lemma_missing_path(b, its, k + 1, its.len() as int);
                }
                return Err(RpcError::new("BASE_DATAPACK_INVALID", "base pak entry has no path"));
            },
        };
        proof {
            assert(offset_in(b, k + 1) <= offset_in(b, k + 2));
            assert(offset_in(b, k + 2) <= offset_in(b, count as int));
        }
        let offset = offsets[k + 1];
        let length = offsets[k + 2] - offsets[k + 1];
        let ghost part = entry_views(out@);
        out.push(PackEntry { path: name.to_owned(), offset, length });
        proof {
            assert(entry_views(out@) =~= part.push(
                EntryView {
                    path: name@,
                    offset: offset_in(b, k + 1),
                    length: offset_in(b, k + 2) - offset_in(b, k + 1),
                },
            ));
        }
        k += 1;
    }
    Ok(out)
}

/// Reads where a pack holds the content of each path. `path` is the name of its file.
pub fn parse_datapack_entries(bytes: &Vec<u8>, path: &str) -> (r: Result<Vec<PackEntry>, RpcError>)
    ensures
        match r {
            Ok(es) => read_view(bytes@, path@) == Ok::<Seq<EntryView>, RpcErrorView>(entry_views(es@)) && inside(
                es@,
                bytes@.len() as int,
            ),
            Err(e) => read_view(bytes@, path@) == Err::<Seq<EntryView>, RpcErrorView>(e@),
        },
{
    let offsets = match read_header(bytes, path) {
        Ok(o) => o,
        Err(e) => return Err(e),
    };
    proof {
        let count = le16(bytes@, 8);
        assert(offset_in(bytes@, 0) <= offset_in(bytes@, 1));
        assert(offset_in(bytes@, 1) <= offset_in(bytes@, count));
    }
    let head = vstd::slice::slice_subrange(bytes.as_slice(), offsets[0] as usize, offsets[1] as usize);
    match decode(head) {
        Ok(manifest) => read_entries(bytes, &offsets, manifest),
        Err(e) => Err(RpcError::new("BASE_DATAPACK_INVALID", e.as_str())),
    }
}

/// An earlier pack: the name of its file, and its bytes.
#[derive(Debug)]
pub struct BasePack {
    pub path: String,
    pub bytes: Vec<u8>,
}

/// A pack that was built.
#[derive(Debug)]
pub struct DataPack {
    pub bytes: Vec<u8>,
    /// How many files it holds.
    pub entries: usize,
    /// The digest of what the files hold, under their paths.
    pub content_hash: String,
    /// The digest of the pack.
    pub sha256: String,
}

/// The bytes that a pack holds for an entry.
pub open spec fn slice_of(b: Seq<u8>, e: EntryView) -> Seq<u8> {
    b.subrange(e.offset, e.offset + e.length)
}

/// What goes into a new pack for a file: what the file holds, or, where the file is not below a
/// changed path, what the earlier pack holds for it.
pub open spec fn chosen(r: ResourceView, base: Option<(Seq<u8>, Seq<EntryView>)>, changed: Seq<Seq<char>>) -> Result<
    ResourceView,
    RpcErrorView,
> {
    match base {
        Some((b, es)) => if below(r.path, changed) {
            Ok(r)
        } else {
            match entry_of(es, r.path) {
                Some(e) => Ok(ResourceView { path: r.path, content: slice_of(b, e) }),
                None => Err(
                    rpc_error(
                        "BASE_DATAPACK_ENTRY_MISSING"@,
                        "unchanged entry is absent from base pak: "@ + r.path,
                    ),
                ),
            }
        },
        None => Ok(r),
    }
}

/// What goes into a new pack for the first `n` files, or why one of them has nothing.
pub open spec fn chosen_upto(
    rs: Seq<ResourceView>,
    base: Option<(Seq<u8>, Seq<EntryView>)>,
    changed: Seq<Seq<char>>,
    n: int,
) -> Result<Seq<ResourceView>, RpcErrorView>
    decreases n,
{
    if n <= 0 {
        Ok(Seq::empty())
    } else {
        match chosen_upto(rs, base, changed, n - 1) {
            Err(e) => Err(e),
            Ok(done) => match chosen(rs[n - 1], base, changed) {
                Err(e) => Err(e),
                Ok(r) => Ok(done.push(r)),
            },
        }
    }
}

/// The bytes whose digest stands for the content of a pack: for each file its path, a zero byte
/// and what it holds.
pub open spec fn hashed(rs: Seq<ResourceView>) -> Seq<u8>
    decreases rs.len(),
{
    if rs.len() == 0 {
        Seq::empty()
    } else {
        hashed(rs.drop_last()) + encode_utf8(rs.last().path) + seq![0u8] + rs.last().content
    }
}

/// What the files hold, one behind the other.
pub open spec fn contents(rs: Seq<ResourceView>) -> Seq<u8>
    decreases rs.len(),
{
    if rs.len() == 0 {
        Seq::empty()
    } else {
        contents(rs.drop_last()) + rs.last().content
    }
}

/// The item of the manifest for the file at a position. The manifest itself is resource one.
pub open spec fn item_view(r: ResourceView, i: int) -> JsonView {
    JsonView::Object(seq![("id"@, JsonView::Unsigned((i + 2) as u64)), ("path"@, JsonView::Text(r.path))])
}

/// The manifest of a pack.
pub open spec fn manifest_view(
    rs: Seq<ResourceView>,
    platform: Seq<char>,
    arch: Seq<char>,
    bundle_name: Seq<char>,
    content_hash: Seq<char>,
) -> JsonView {
    JsonView::Object(
        seq![
            ("arch"@, JsonView::Text(arch)),
            ("bundle_name"@, JsonView::Text(bundle_name)),
            ("code_cache"@, JsonView::Null),
            ("content_hash"@, JsonView::Text(content_hash)),
            ("entries"@, JsonView::Array(Seq::new(rs.len(), |i: int| item_view(rs[i], i)))),
            ("platform"@, JsonView::Text(platform)),
            ("tool_version"@, JsonView::Text("1"@)),
            ("v8_version"@, JsonView::Text(""@)),
        ],
    )
}

/// The offset of a resource of a pack whose manifest has a length, or of its end.
pub open spec fn offset_of(rs: Seq<ResourceView>, manifest_len: int, i: int) -> int
    decreases i,
{
    if i <= 0 {
        12 + 6 * (rs.len() as int + 2)
    } else if i == 1 {
        12 + 6 * (rs.len() + 2) + manifest_len
    } else {
        offset_of(rs, manifest_len, i - 1) + rs[i - 2].content.len()
    }
}

/// The first `k` places of the index of a pack.
pub open spec fn index_upto(rs: Seq<ResourceView>, manifest_len: int, k: int) -> Seq<u8>
    decreases k,
{
    if k <= 0 {
        Seq::empty()
    } else {
        index_upto(rs, manifest_len, k - 1) + bytes16(k) + bytes32(offset_of(rs, manifest_len, k - 1))
    }
}

/// The header and the index of a pack.
pub open spec fn head_bytes(rs: Seq<ResourceView>, manifest_len: int) -> Seq<u8> {
    bytes32(5) + bytes32(0) + bytes16(rs.len() as int + 1) + bytes16(0) + index_upto(rs, manifest_len, rs.len() as int + 1)
        + bytes16(0) + bytes32(offset_of(rs, manifest_len, rs.len() as int + 1))
}

/// A pack: header and index, manifest, and what the files hold.
pub open spec fn pack_bytes(rs: Seq<ResourceView>, manifest: Seq<u8>) -> Seq<u8> {
    head_bytes(rs, manifest.len() as int) + manifest + contents(rs)
}

/// The manifest of a pack as it is written.
pub open spec fn manifest_bytes(
    rs: Seq<ResourceView>,
    platform: Seq<char>,
    arch: Seq<char>,
    bundle_name: Seq<char>,
) -> Seq<u8> {
    encode_utf8(json_text(manifest_view(rs, platform, arch, bundle_name, sha256_hex(hashed(rs)))))
}

proof fn lemma_index(rs: Seq<ResourceView>, m: int, k: int)
    requires
        0 <= k <= rs.len() + 1,
    ensures
        index_upto(rs, m, k).len() == 6 * k,
        forall|i: int|
            0 <= i < k ==> #[trigger] index_upto(rs, m, k).subrange(6 * i + 2, 6 * i + 6) == bytes32(
                offset_of(rs, m, i),
            ),
    decreases k,
{
    if k > 0 {
        lemma_index(rs, m, k - 1);
        let a = index_upto(rs, m, k - 1);
        let b = index_upto(rs, m, k);
        assert forall|i: int| 0 <= i < k implies #[trigger] b.subrange(6 * i + 2, 6 * i + 6) == bytes32(
            offset_of(rs, m, i),
        ) by {
            if i < k - 1 {
                assert(b.subrange(6 * i + 2, 6 * i + 6) =~= a.subrange(6 * i + 2, 6 * i + 6));
            } else {
                assert(b.subrange(6 * i + 2, 6 * i + 6) =~= bytes32(offset_of(rs, m, i)));
            }
        }
    }
}

proof fn lemma_offset_of(rs: Seq<ResourceView>, m: int, i: int)
    requires
        0 <= m,
        1 <= i <= rs.len() + 1,
    ensures
        offset_of(rs, m, i) == 12 + 6 * (rs.len() + 2) + m + contents(rs.take(i - 1)).len(),
    decreases i,
{
    if i == 1 {
        assert(rs.take(0) =~= Seq::empty());
    } else {
        lemma_offset_of(rs, m, i - 1);
        assert(rs.take(i - 1).drop_last() =~= rs.take(i - 2));
        assert(rs.take(i - 1).last() == rs[i - 2]);
    }
}

proof fn lemma_contents_grow(rs: Seq<ResourceView>, a: int, b: int)
    requires
        0 <= a <= b <= rs.len(),
    ensures
        contents(rs.take(a)).is_prefix_of(contents(rs.take(b))),
    decreases b - a,
{
    if a < b {
        lemma_contents_grow(rs, a, b - 1);
        assert(rs.take(b).drop_last() =~= rs.take(b - 1));
        let x = contents(rs.take(a));
        let y = contents(rs.take(b - 1));
        let z = contents(rs.take(b));
        assert(z.subrange(0, x.len() as int) =~= y.subrange(0, x.len() as int));
    } else {
        assert(contents(rs.take(a)).subrange(0, contents(rs.take(a)).len() as int) =~= contents(rs.take(a)));
    }
}

/// Where a pack holds the content of each of its files.
pub open spec fn pack_entries(rs: Seq<ResourceView>, manifest_len: int) -> Seq<EntryView> {
    Seq::new(
        rs.len(),
        |i: int|
            EntryView {
                path: rs[i].path,
                offset: offset_of(rs, manifest_len, i + 1),
                length: rs[i].content.len() as int,
            },
    )
}

proof fn lemma_head(rs: Seq<ResourceView>, manifest: Seq<u8>)
    requires
        rs.len() + 1 <= u16::MAX,
        offset_of(rs, manifest.len() as int, rs.len() as int + 1) <= u32::MAX,
    ensures
        head_bytes(rs, manifest.len() as int).len() == 12 + 6 * (rs.len() + 2),
        ({
            let b = pack_bytes(rs, manifest);
            &&& b.len() == offset_of(rs, manifest.len() as int, rs.len() as int + 1)
            &&& le32(b, 0) == 5
            &&& le16(b, 8) == rs.len() + 1
            &&& forall|i: int|
                0 <= i <= rs.len() + 1 ==> #[trigger] offset_in(b, i) == offset_of(rs, manifest.len() as int, i)
        }),
{
    let m = manifest.len() as int;
    let n = rs.len() as int;
    let b = pack_bytes(rs, manifest);
    let h = head_bytes(rs, m);
    let ix = index_upto(rs, m, n + 1);
    lemma_index(rs, m, n + 1);
    lemma_offset_of(rs, m, n + 1);
    assert(rs.take(n) =~= rs);
    lemma_le32(5);
    lemma_le16(n + 1);
    assert(b.subrange(0, 4) =~= bytes32(5));
    assert(b.subrange(8, 10) =~= bytes16(n + 1));
    assert(le32(b, 0) == le32(b.subrange(0, 4), 0));
    assert(le16(b, 8) == le16(b.subrange(8, 10), 0));
    assert forall|i: int| 0 <= i <= n + 1 implies #[trigger] offset_in(b, i) == offset_of(rs, m, i) by {
        let at = 14 + 6 * i;
        lemma_offset_upper(rs, m, i);
        lemma_le32(offset_of(rs, m, i));
        if i <= n {
            assert(ix.subrange(6 * i + 2, 6 * i + 6) == bytes32(offset_of(rs, m, i)));
            assert(b.subrange(at, at + 4) =~= ix.subrange(6 * i + 2, 6 * i + 6));
        } else {
            assert(b.subrange(at, at + 4) =~= bytes32(offset_of(rs, m, n + 1)));
        }
        assert(le32(b, at) == le32(b.subrange(at, at + 4), 0));
    }
}

proof fn lemma_offset_upper(rs: Seq<ResourceView>, m: int, i: int)
    requires
        0 <= m,
        0 <= i <= rs.len() + 1,
    ensures
        0 <= offset_of(rs, m, i) <= offset_of(rs, m, rs.len() as int + 1),
    decreases rs.len() + 1 - i,
{
    if i <= rs.len() {
        lemma_offset_upper(rs, m, i + 1);
    }
    if i >= 1 {
        lemma_offset_of(rs, m, i);
    }
}

proof fn lemma_offset_order(rs: Seq<ResourceView>, m: int, i: int, j: int)
    requires
        0 <= m,
        0 <= i <= j <= rs.len() + 1,
    ensures
        offset_of(rs, m, i) <= offset_of(rs, m, j),
    decreases j - i,
{
    if i < j {
        lemma_offset_order(rs, m, i, j - 1);
    }
}

proof fn lemma_item_path(r: ResourceView, i: int)
    ensures
        item_view(r, i).get_str("path"@) == Some(r.path),
{
    reveal_strlit("id");
    reveal_strlit("path");
    assert("id"@.len() != "path"@.len());
    let f = item_view(r, i)->Object_0;
    assert(f.skip(1)[0] == f[1]);
    reveal_with_fuel(crate::json::lookup, 3);
}

proof fn lemma_manifest_entries(
    rs: Seq<ResourceView>,
    platform: Seq<char>,
    arch: Seq<char>,
    bundle_name: Seq<char>,
    hash: Seq<char>,
)
    ensures
        manifest_view(rs, platform, arch, bundle_name, hash).get_array("entries"@) == Some(
            Seq::new(rs.len(), |i: int| item_view(rs[i], i)),
        ),
{
    reveal_strlit("arch");
    reveal_strlit("bundle_name");
    reveal_strlit("code_cache");
    reveal_strlit("content_hash");
    reveal_strlit("entries");
    assert("arch"@.len() != "entries"@.len());
    assert("bundle_name"@.len() != "entries"@.len());
    assert("code_cache"@.len() != "entries"@.len());
    assert("content_hash"@.len() != "entries"@.len());
    let f = manifest_view(rs, platform, arch, bundle_name, hash)->Object_0;
    assert(f.skip(1)[0] == f[1]);
    assert(f.skip(1).skip(1)[0] == f[2]);
    assert(f.skip(1).skip(1).skip(1)[0] == f[3]);
    assert(f.skip(1).skip(1).skip(1).skip(1)[0] == f[4]);
    reveal_with_fuel(crate::json::lookup, 6);
}

proof fn lemma_lt_at(a: Seq<char>, b: Seq<char>, k: int)
    requires
        0 <= k < a.len(),
        k < b.len(),
        forall|i: int| 0 <= i < k ==> a[i] == b[i],
        a[k] < b[k],
    ensures
        text_lt(a, b),
    decreases k,
{
    if k > 0 {
        lemma_lt_at(a.skip(1), b.skip(1), k - 1);
    }
}

proof fn lemma_item_canonical(r: ResourceView, i: int)
    ensures
        canonical(item_view(r, i), 98),
{
    let g = item_view(r, i)->Object_0;
    reveal_strlit("id");
    reveal_strlit("path");
    lemma_lt_at("id"@, "path"@, 0);
    assert(g[0].0 == "id"@ && g[1].0 == "path"@);
    assert forall|k: int| 0 <= k < g.len() implies canonical((#[trigger] g[k]).1, (98 - 1) as nat) by {
        assert(g[k].1 is Unsigned || g[k].1 is Text);
    }
    assert forall|a: int, b: int| 0 <= a < b < g.len() implies text_lt((#[trigger] g[a]).0, (#[trigger] g[b]).0) by {
        assert(a == 0 && b == 1);
    }
}

proof fn lemma_array_canonical(items: Seq<JsonView>, depth: nat)
    requires
        depth > 0,
        forall|i: int| 0 <= i < items.len() ==> canonical(#[trigger] items[i], (depth - 1) as nat),
    ensures
        canonical(JsonView::Array(items), depth),
{
}

proof fn lemma_manifest_canonical(
    rs: Seq<ResourceView>,
    platform: Seq<char>,
    arch: Seq<char>,
    bundle_name: Seq<char>,
    hash: Seq<char>,
)
    ensures
        canonical(manifest_view(rs, platform, arch, bundle_name, hash), 100),
{
    let j = manifest_view(rs, platform, arch, bundle_name, hash);
    let f = j->Object_0;
    reveal_strlit("arch");
    reveal_strlit("bundle_name");
    reveal_strlit("code_cache");
    reveal_strlit("content_hash");
    reveal_strlit("entries");
    reveal_strlit("platform");
    reveal_strlit("tool_version");
    reveal_strlit("v8_version");
    assert forall|i: int, k: int| 0 <= i < k < f.len() implies text_lt((#[trigger] f[i]).0, (#[trigger] f[k]).0) by {
        if i == 2 && k == 3 {
            lemma_lt_at("code_cache"@, "content_hash"@, 2);
        } else {
            lemma_lt_at(f[i].0, f[k].0, 0);
        }
    }
    let items = f[4].1->Array_0;
    assert(f[4].1 == JsonView::Array(items));
    assert forall|i: int| 0 <= i < items.len() implies canonical(#[trigger] items[i], 98) by {
        assert(items[i] == item_view(rs[i], i));
        lemma_item_canonical(rs[i], i);
    }
    lemma_array_canonical(items, 99);
    assert forall|i: int| 0 <= i < f.len() implies canonical((#[trigger] f[i]).1, 99) by {
        assert(i == 4 || f[i].1 is Text || f[i].1 is Null);
    }
}

/// What was packed is read back: a pack whose manifest reads as it was written has one entry for
/// each file, in their order, and holds there what the file holds.
pub proof fn packed_files_are_read_back(
    rs: Seq<ResourceView>,
    manifest: Seq<u8>,
    path: Seq<char>,
    platform: Seq<char>,
    arch: Seq<char>,
    bundle_name: Seq<char>,
    hash: Seq<char>,
)
    requires
        rs.len() + 1 <= u16::MAX,
        offset_of(rs, manifest.len() as int, rs.len() as int + 1) <= u32::MAX,
        json_parse(manifest) == Ok::<JsonView, Seq<char>>(manifest_view(rs, platform, arch, bundle_name, hash)),
    ensures
        read_view(pack_bytes(rs, manifest), path) == Ok::<Seq<EntryView>, RpcErrorView>(
            pack_entries(rs, manifest.len() as int),
        ),
        forall|i: int|
            0 <= i < rs.len() ==> #[trigger] slice_of(
                pack_bytes(rs, manifest),
                pack_entries(rs, manifest.len() as int)[i],
            ) == rs[i].content,
{
    let m = manifest.len() as int;
    let n = rs.len() as int;
    let b = pack_bytes(rs, manifest);
    lemma_head(rs, manifest);
    assert(offsets_grow(b, n + 1)) by {
        assert forall|i: int, j: int| 0 <= i <= j <= n + 1 implies #[trigger] offset_in(b, i) <= #[trigger] offset_in(
            b,
            j,
        ) by {
            lemma_offset_order(rs, m, i, j);
        }
    }
    assert(offset_in(b, n + 1) == b.len());
    assert(header_error(b, path) is None);
    assert(offset_in(b, 0) == 12 + 6 * (n + 2));
    assert(offset_in(b, 1) == 12 + 6 * (n + 2) + m);
    assert(b.subrange(offset_in(b, 0), offset_in(b, 1)) =~= manifest);
    lemma_manifest_entries(rs, platform, arch, bundle_name, hash);
    let items = Seq::new(rs.len(), |i: int| item_view(rs[i], i));
    lemma_entries_of(rs, b, items, m, n);
    assert(pack_entries(rs, m).take(n) =~= pack_entries(rs, m));
    assert forall|i: int| 0 <= i < n implies #[trigger] slice_of(b, pack_entries(rs, m)[i]) == rs[i].content by {
        let e = pack_entries(rs, m)[i];
        lemma_offset_of(rs, m, i + 1);
        lemma_contents_grow(rs, i + 1, n);
        assert(rs.take(n) =~= rs);
        assert(rs.take(i + 1).drop_last() =~= rs.take(i));
        let c = contents(rs);
        let before = contents(rs.take(i)).len() as int;
        let upto = contents(rs.take(i + 1));
        assert(upto == contents(rs.take(i)) + rs[i].content);
        assert(c.subrange(before, before + rs[i].content.len()) =~= rs[i].content) by {
            assert forall|k: int| 0 <= k < rs[i].content.len() implies c[before + k] == rs[i].content[k] by {
                assert(upto[before + k] == c.subrange(0, upto.len() as int)[before + k]);
                assert(upto[before + k] == rs[i].content[k]);
            }
        }
        assert(slice_of(b, e) =~= c.subrange(before, before + rs[i].content.len()));
    }
}

proof fn lemma_entries_of(rs: Seq<ResourceView>, b: Seq<u8>, items: Seq<JsonView>, m: int, k: int)
    requires
        0 <= k <= rs.len(),
        items == Seq::new(rs.len(), |i: int| item_view(rs[i], i)),
        forall|i: int| 0 <= i <= rs.len() + 1 ==> #[trigger] offset_in(b, i) == offset_of(rs, m, i),
    ensures
        entries_upto(b, items, k) == Some(pack_entries(rs, m).take(k)),
    decreases k,
{
    let es = pack_entries(rs, m);
    if k > 0 {
        lemma_entries_of(rs, b, items, m, k - 1);
        lemma_item_path(rs[k - 1], k - 1);
        assert(offset_in(b, k) == offset_of(rs, m, k));
        assert(offset_in(b, k + 1) == offset_of(rs, m, k + 1));
        assert(es.take(k) =~= es.take(k - 1).push(es[k - 1]));
    } else {
        assert(es.take(0) =~= Seq::empty());
    }
}

/// An incremental pack is the pack built from all files, wherever the earlier pack holds for the
/// files outside the changed paths what these files hold.
pub proof fn incremental_pack_is_the_full_pack(
    rs: Seq<ResourceView>,
    b: Seq<u8>,
    es: Seq<EntryView>,
    changed: Seq<Seq<char>>,
    n: int,
)
    requires
        0 <= n <= rs.len(),
        forall|i: int|
            0 <= i < rs.len() && !below((#[trigger] rs[i]).path, changed) ==> (entry_of(es, rs[i].path) matches Some(
                e,
            ) && slice_of(b, e) == rs[i].content),
    ensures
        chosen_upto(rs, Some((b, es)), changed, n) == chosen_upto(rs, None, Seq::empty(), n),
        chosen_upto(rs, None, Seq::empty(), n) == Ok::<Seq<ResourceView>, RpcErrorView>(rs.take(n)),
    decreases n,
{
    if n > 0 {
        incremental_pack_is_the_full_pack(rs, b, es, changed, n - 1);
        assert(rs.take(n) =~= rs.take(n - 1).push(rs[n - 1]));
        let r = rs[n - 1];
        assert(chosen(r, Some((b, es)), changed) == Ok::<ResourceView, RpcErrorView>(r));
    } else {
        assert(rs.take(0) =~= Seq::empty());
    }
}

/// What an incremental build starts from: the bytes and the entries of the earlier pack, or why
/// it cannot be used.
pub open spec fn base_view(base: Option<(Seq<char>, Seq<u8>)>, digest: Option<Seq<char>>) -> Result<
    Option<(Seq<u8>, Seq<EntryView>)>,
    RpcErrorView,
> {
    match base {
        None => Ok(None),
        Some((path, b)) => match digest {
            None => Err(
                rpc_error("BASE_DATAPACK_DIGEST_REQUIRED"@, "incremental DataPack requires the base pak digest"@),
            ),
            Some(expected) => {
                let actual = "sha256:"@ + sha256_hex(b);
                if actual != expected {
                    Err(
                        rpc_error(
                            "BASE_DATAPACK_DRIFT"@,
                            "base DataPack digest changed: expected "@ + expected + ", got "@ + actual,
                        ),
                    )
                } else {
                    match read_view(b, path) {
                        Err(e) => Err(e),
                        Ok(es) => Ok(Some((b, es))),
                    }
                }
            },
        },
    }
}

/// What is packed, in order, or why nothing is.
pub open spec fn selection_view(
    rs: Seq<ResourceView>,
    base: Option<(Seq<char>, Seq<u8>)>,
    digest: Option<Seq<char>>,
    changed: Seq<Seq<char>>,
) -> Result<Seq<ResourceView>, RpcErrorView> {
    let s = sorted(rs);
    match repeated(s, 0) {
        Some(p) => Err(rpc_error("OFFICE_PACK_DUPLICATE_PATH"@, "duplicate packed resource path: "@ + p)),
        None => if s.len() == 0 {
            Err(rpc_error("OFFICE_PACK_EMPTY"@, "no Office resources to pack"@))
        } else {
            match base_view(base, digest) {
                Err(e) => Err(e),
                Ok(b) => if b is Some && changed.len() == 0 {
                    Err(
                        rpc_error(
                            "DATAPACK_CHANGED_PREFIX_REQUIRED"@,
                            "incremental DataPack requires at least one changed prefix"@,
                        ),
                    )
                } else if s.len() + 1 > u16::MAX {
                    Err(
                        rpc_error(
                            "OFFICE_PACK_RESOURCE_LIMIT"@,
                            "DataPack resource limit exceeded: "@ + decimal((s.len() + 1) as nat),
                        ),
                    )
                } else {
                    chosen_upto(s, b, changed, s.len() as int)
                },
            }
        },
    }
}

/// The end of the pack of some files.
pub open spec fn pack_end(rs: Seq<ResourceView>, platform: Seq<char>, arch: Seq<char>, bundle_name: Seq<char>) -> int {
    offset_of(rs, manifest_bytes(rs, platform, arch, bundle_name).len() as int, rs.len() as int + 1)
}

/// The bytes of an earlier pack, with the name of its file.
pub open spec fn opt_base(base: Option<BasePack>) -> Option<(Seq<char>, Seq<u8>)> {
    match base {
        Some(b) => Some((b.path@, b.bytes@)),
        None => None,
    }
}

/// The characters of an optional text.
pub open spec fn opt_str(s: Option<&str>) -> Option<Seq<char>> {
    match s {
        Some(t) => Some(t@),
        None => None,
    }
}

fn find_repeated(rs: &Vec<PackResource>) -> (r: Option<usize>)
    ensures
        match r {
            Some(i) => i < rs@.len() && repeated(resource_views(rs@), 0) == Some(rs@[i as int].path@),
            None => repeated(resource_views(rs@), 0) is None,
        },
{
    let ghost v = resource_views(rs@);
    let mut i: usize = 0;
    while i < rs.len() && rs.len() - i > 1
        invariant
            i <= rs.len(),
            v == resource_views(rs@),
            repeated(v, 0) == repeated(v, i as int),
        decreases rs.len() - i,
    {
        assert(v[i as int].path == rs@[i as int].path@);
        assert(v[i + 1].path == rs@[i + 1].path@);
        if str_eq(rs[i].path.as_str(), rs[i + 1].path.as_str()) {
            return Some(i);
        }
        i += 1;
    }
    None
}

fn open_base(base: &Option<BasePack>, digest: Option<&str>) -> (r: Result<Option<Vec<PackEntry>>, RpcError>)
    ensures
        match r {
            Ok(Some(es)) => (base matches Some(b) && base_view(opt_base(*base), opt_str(digest)) == Ok::<
                Option<(Seq<u8>, Seq<EntryView>)>,
                RpcErrorView,
            >(Some((b.bytes@, entry_views(es@)))) && inside(es@, b.bytes@.len() as int)),
            Ok(None) => base is None && base_view(opt_base(*base), opt_str(digest)) == Ok::<
                Option<(Seq<u8>, Seq<EntryView>)>,
                RpcErrorView,
            >(None),
            Err(e) => base_view(opt_base(*base), opt_str(digest)) == Err::<
                Option<(Seq<u8>, Seq<EntryView>)>,
                RpcErrorView,
            >(e@),
        },
{
    let b = match base {
        Some(b) => b,
        None => return Ok(None),
    };
    let expected = match digest {
        Some(d) => d,
        None => {
            return Err(
                RpcError::new(
                    "BASE_DATAPACK_DIGEST_REQUIRED",
                    "incremental DataPack requires the base pak digest",
                ),
            );
        },
    };
    let hex = sha256_bytes(b.bytes.as_slice());
    let actual = concat2("sha256:", hex.as_str());
    if !str_eq(actual.as_str(), expected) {
        let message = concat4("base DataPack digest changed: expected ", expected, ", got ", actual.as_str());
        return Err(RpcError::new("BASE_DATAPACK_DRIFT", message.as_str()));
    }
    match parse_datapack_entries(&b.bytes, b.path.as_str()) {
        Ok(es) => Ok(Some(es)),
        Err(e) => Err(e),
    }
}

/// The bytes and the entries of an earlier pack that was opened.
pub open spec fn opened(base: Option<BasePack>, entries: Option<Vec<PackEntry>>) -> Option<
    (Seq<u8>, Seq<EntryView>),
> {
    match (base, entries) {
        (Some(p), Some(es)) => Some((p.bytes@, entry_views(es@))),
        _ => None,
    }
}

proof fn lemma_choice_fails(
    rs: Seq<ResourceView>,
    base: Option<(Seq<u8>, Seq<EntryView>)>,
    changed: Seq<Seq<char>>,
    k: int,
    n: int,
    e: RpcErrorView,
)
    requires
        0 < k <= n,
        chosen_upto(rs, base, changed, k) == Err::<Seq<ResourceView>, RpcErrorView>(e),
    ensures
        chosen_upto(rs, base, changed, n) == Err::<Seq<ResourceView>, RpcErrorView>(e),
    decreases n,
{
    if k < n {
        lemma_choice_fails(rs, base, changed, k, n - 1, e);
    }
}

fn choose_contents(
    rs: &Vec<PackResource>,
    base: &Option<BasePack>,
    entries: &Option<Vec<PackEntry>>,
    changed: &Vec<String>,
) -> (r: Result<Vec<PackResource>, RpcError>)
    requires
        base is Some == entries is Some,
        entries matches Some(es) ==> inside(es@, base->0.bytes@.len() as int),
    ensures
        ({
            let b = opened(*base, *entries);
            let want = chosen_upto(resource_views(rs@), b, views(changed@), rs@.len() as int);
            match r {
                Ok(list) => want == Ok::<Seq<ResourceView>, RpcErrorView>(resource_views(list@)) && list@.len()
                    == rs@.len(),
                Err(e) => want == Err::<Seq<ResourceView>, RpcErrorView>(e@),
            }
        }),
{
    let ghost b = opened(*base, *entries);
    let ghost all = resource_views(rs@);
    let ghost ch = views(changed@);
    let mut out: Vec<PackResource> = Vec::new();
    let mut i: usize = 0;
    assert(resource_views(out@) =~= Seq::empty());
    while i < rs.len()
        invariant
            i <= rs.len(),
            out@.len() == i,
            all == resource_views(rs@),
            ch == views(changed@),
            base is Some == entries is Some,
            entries matches Some(es) ==> inside(es@, base->0.bytes@.len() as int),
            b == opened(*base, *entries),
            chosen_upto(all, b, ch, i as int) == Ok::<Seq<ResourceView>, RpcErrorView>(resource_views(out@)),
        decreases rs.len() - i,
    {
        assert(all[i as int] == rs@[i as int]@);
        let mut content: Vec<u8> = Vec::new();
        let from_base = base.is_some() && !path_matches_prefix(rs[i].path.as_str(), changed);
        if from_base {
            let es = entries.as_ref().unwrap();
            let pack = base.as_ref().unwrap();
            match find_entry(es, rs[i].path.as_str()) {
                Some(e) => {
                    assert(e.offset + e.length <= pack.bytes@.len()) by {
                        let k = choose|k: int| 0 <= k < es@.len() && es@[k] == *e;
                        assert(es@[k].offset + es@[k].length <= pack.bytes@.len());
                    }
                    let size = pack.bytes.len();
                    let part = vstd::slice::slice_subrange(
                        pack.bytes.as_slice(),
                        e.offset as usize,
                        e.offset as usize + e.length as usize,
                    );
                    write_all(&mut content, part);
                    assert(content@ =~= slice_of(pack.bytes@, e@));
                },
                None => {
                    let message = concat2(
                        "unchanged entry is absent from base pak: ",
                        rs[i].path.as_str(),
                    );
                    let e = RpcError::new("BASE_DATAPACK_ENTRY_MISSING", message.as_str());
                    proof {
                        assert(chosen(all[i as int], b, ch) == Err::<ResourceView, RpcErrorView>(e@));
                        assert(chosen_upto(all, b, ch, i + 1) == Err::<Seq<ResourceView>, RpcErrorView>(e@));
                        lemma_choice_fails(all, b, ch, i + 1, all.len() as int, e@);
                    }
                    return Err(e);
                },
            }
        } else {
            write_all(&mut content, rs[i].content.as_slice());
            assert(content@ =~= rs@[i as int].content@);
        }
        let item = PackResource { path: rs[i].path.clone(), content };
        let ghost done = resource_views(out@);
        out.push(item);
        proof {
            assert(chosen(all[i as int], b, ch) == Ok::<ResourceView, RpcErrorView>(item@));
            assert(resource_views(out@) =~= done.push(item@));
        }
        i += 1;
    }
    Ok(out)
}

fn hash_contents(rs: &Vec<PackResource>) -> (r: String)
    ensures
        r@ == sha256_hex(hashed(resource_views(rs@))),
{
    let ghost all = resource_views(rs@);
    let mut bytes: Vec<u8> = Vec::new();
    let mut i: usize = 0;
    assert(all.take(0) =~= Seq::empty());
    while i < rs.len()
        invariant
            i <= rs.len(),
            all == resource_views(rs@),
            bytes@ == hashed(all.take(i as int)),
        decreases rs.len() - i,
    {
        proof {
            assert(all.take(i + 1).drop_last() =~= all.take(i as int));
            assert(all.take(i + 1).last() == rs@[i as int]@);
        }
        let ghost before = bytes@;
        write_all(&mut bytes, rs[i].path.as_str().as_bytes());
        bytes.push(0);
        write_all(&mut bytes, rs[i].content.as_slice());
        proof {
            let r = rs@[i as int]@;
            assert(bytes@ =~= before + encode_utf8(r.path) + seq![0u8] + r.content);
        }
        i += 1;
    }
    assert(all.take(all.len() as int) =~= all);
    sha256_bytes(bytes.as_slice())
}

fn manifest_of(rs: &Vec<PackResource>, platform: &str, arch: &str, bundle_name: &str, content_hash: &str) -> (r: Json)
    requires
        rs@.len() <= 65535,
    ensures
        r@ == manifest_view(resource_views(rs@), platform@, arch@, bundle_name@, content_hash@),
{
    let ghost all = resource_views(rs@);
    let mut items: Vec<Json> = Vec::new();
    let mut i: usize = 0;
    while i < rs.len()
        invariant
            i <= rs.len(),
            rs@.len() <= 65535,
            items@.len() == i,
            all == resource_views(rs@),
            forall|k: int| 0 <= k < i ==> items@[k]@ == item_view(all[k], k),
        decreases rs.len() - i,
    {
        let item = Json::obj().plus("id", Json::Unsigned(i as u64 + 2)).plus("path", Json::text(rs[i].path.as_str()));
        assert(item@ == item_view(all[i as int], i as int)) by {
            assert(item@->Object_0 =~= item_view(all[i as int], i as int)->Object_0);
        }
        items.push(item);
        i += 1;
    }
    let entries = Json::array(items);
    assert(entries@->Array_0 =~= Seq::new(all.len(), |k: int| item_view(all[k], k)));
    let r = Json::obj()
        .plus("arch", Json::text(arch))
        .plus("bundle_name", Json::text(bundle_name))
        .plus("code_cache", Json::Null)
        .plus("content_hash", Json::text(content_hash))
        .plus("entries", entries)
        .plus("platform", Json::text(platform))
        .plus("tool_version", Json::text("1"))
        .plus("v8_version", Json::text(""));
    assert(r@->Object_0 =~= manifest_view(all, platform@, arch@, bundle_name@, content_hash@)->Object_0);
    r
}

fn end_of_pack(rs: &Vec<PackResource>, manifest_len: usize) -> (r: u128)
    requires
        rs@.len() <= 65535,
    ensures
        r == offset_of(resource_views(rs@), manifest_len as int, rs@.len() as int + 1),
{
    let ghost all = resource_views(rs@);
    let mut end: u128 = 12 + 6 * (rs.len() as u128 + 2) + manifest_len as u128;
    let mut i: usize = 0;
    while i < rs.len()
        invariant
            i <= rs.len(),
            rs@.len() <= 65535,
            all == resource_views(rs@),
            end == offset_of(all, manifest_len as int, i as int + 1),
            end <= 400_000 + (i + 1) * 0x1_0000_0000_0000_0000,
        decreases rs.len() - i,
    {
        assert(all[i as int].content == rs@[i as int].content@);
        let size = rs[i].content.len();
        assert(end + size <= 400_000 + (i + 2) * 0x1_0000_0000_0000_0000);
        end = end + size as u128;
        i += 1;
    }
    end
}

fn write_pack(rs: &Vec<PackResource>, manifest: &[u8]) -> (r: Vec<u8>)
    requires
        rs@.len() < 65535,
        offset_of(resource_views(rs@), manifest@.len() as int, rs@.len() as int + 1) <= u32::MAX,
    ensures
        r@ == pack_bytes(resource_views(rs@), manifest@),
{
    let ghost all = resource_views(rs@);
    let ghost m = manifest@.len() as int;
    let n = rs.len();
    let mut out: Vec<u8> = Vec::new();
    write32(&mut out, 5);
    write32(&mut out, 0);
    write16(&mut out, n as u64 + 1);
    write16(&mut out, 0);
    let ghost front = out@;
    proof {
        assert(front =~= bytes32(5) + bytes32(0) + bytes16(n as int + 1) + bytes16(0));
        lemma_offset_upper(all, m, 0);
        lemma_offset_upper(all, m, 1);
    }
    let mut offset: u64 = 12 + 6 * (n as u64 + 2);
    write16(&mut out, 1);
    write32(&mut out, offset);
    offset = offset + manifest.len() as u64;
    proof {
        reveal_with_fuel(index_upto, 2);
        assert(out@ =~= front + index_upto(all, m, 1));
    }
    let mut i: usize = 0;
    while i < n
        invariant
            n == rs@.len(),
            n < 65535,
            i <= n,
            all == resource_views(rs@),
            m == manifest@.len(),
            offset_of(all, m, n as int + 1) <= u32::MAX,
            offset == offset_of(all, m, i as int + 1),
            out@ == front + index_upto(all, m, i as int + 1),
        decreases n - i,
    {
        let ghost before = out@;
        write16(&mut out, i as u64 + 2);
        write32(&mut out, offset);
        proof {
            assert(out@ =~= front + index_upto(all, m, i as int + 2));
            lemma_offset_upper(all, m, i as int + 2);
            assert(all[i as int].content == rs@[i as int].content@);
        }
        let size = rs[i].content.len() as u64;
        offset = offset + size;
        i += 1;
    }
    write16(&mut out, 0);
    write32(&mut out, offset);
    proof {
        assert(out@ =~= head_bytes(all, m));
    }
    write_all(&mut out, manifest);
    let ghost head = out@;
    let mut k: usize = 0;
    proof {
        assert(all.take(0) =~= Seq::empty());
        assert(head + contents(all.take(0)) =~= head);
    }
    while k < n
        invariant
            n == rs@.len(),
            k <= n,
            all == resource_views(rs@),
            out@ == head + contents(all.take(k as int)),
        decreases n - k,
    {
        proof {
            assert(all.take(k + 1).drop_last() =~= all.take(k as int));
            assert(all.take(k + 1).last() == rs@[k as int]@);
        }
        write_all(&mut out, rs[k].content.as_slice());
        assert(out@ =~= head + contents(all.take(k + 1)));
        k += 1;
    }
    assert(all.take(n as int) =~= all);
    out
}

/// What is packed of some files, in order. With an earlier pack, whose digest has to be known, the
/// files outside the changed paths come out of that pack. Why nothing is packed does not depend on
/// what the files hold.
pub fn select_resources(
    resources: Vec<PackResource>,
    base_pack: &Option<BasePack>,
    base_pack_digest: Option<&str>,
    changed_prefixes: &Vec<String>,
) -> (r: Result<Vec<PackResource>, RpcError>)
    ensures
        match selection_view(
            resource_views(resources@),
            opt_base(*base_pack),
            opt_str(base_pack_digest),
            views(changed_prefixes@),
        ) {
            Err(e) => fails(r, e),
            Ok(rs) => r matches Ok(list) && resource_views(list@) == rs && list@.len() < 65535,
        },
{
    let list = sort_resources(resources);
    if let Some(i) = find_repeated(&list) {
        let message = concat2("duplicate packed resource path: ", list[i].path.as_str());
        return Err(RpcError::new("OFFICE_PACK_DUPLICATE_PATH", message.as_str()));
    }
    assert(resource_views(list@).len() == list@.len());
    if list.len() == 0 {
        return Err(RpcError::new("OFFICE_PACK_EMPTY", "no Office resources to pack"));
    }
    let entries = match open_base(base_pack, base_pack_digest) {
        Ok(es) => es,
        Err(e) => return Err(e),
    };
    if entries.is_some() && changed_prefixes.len() == 0 {
        return Err(
            RpcError::new(
                "DATAPACK_CHANGED_PREFIX_REQUIRED",
                "incremental DataPack requires at least one changed prefix",
            ),
        );
    }
    if list.len() >= 65535 {
        let count = u128_text(list.len() as u128 + 1);
        let message = concat2("DataPack resource limit exceeded: ", count.as_str());
        return Err(RpcError::new("OFFICE_PACK_RESOURCE_LIMIT", message.as_str()));
    }
    choose_contents(&list, base_pack, &entries, changed_prefixes)
}

/// Files without what they hold.
pub open spec fn bare(rs: Seq<ResourceView>) -> Seq<ResourceView> {
    rs.map_values(|r: ResourceView| (ResourceView { content: Seq::empty(), ..r }))
}

proof fn lemma_bare_insert(rs: Seq<ResourceView>, r: ResourceView)
    ensures
        bare(insert_resource(rs, r)) == insert_resource(bare(rs), (ResourceView { content: Seq::empty(), ..r })),
    decreases rs.len(),
{
    let empty = ResourceView { content: Seq::empty(), ..r };
    if rs.len() > 0 && text_lt(rs[0].path, r.path) {
        lemma_bare_insert(rs.skip(1), r);
        assert(bare(rs).skip(1) =~= bare(rs.skip(1)));
        assert(bare(insert_resource(rs, r)) =~= seq![bare(rs)[0]] + bare(insert_resource(rs.skip(1), r)));
    } else {
        assert(bare(insert_resource(rs, r)) =~= seq![empty] + bare(rs));
    }
}

proof fn lemma_bare_sorted(rs: Seq<ResourceView>)
    ensures
        bare(sorted(rs)) == sorted(bare(rs)),
    decreases rs.len(),
{
    if rs.len() > 0 {
        lemma_bare_sorted(rs.skip(1));
        lemma_bare_insert(sorted(rs.skip(1)), rs[0]);
        assert(bare(rs).skip(1) =~= bare(rs.skip(1)));
    } else {
        assert(bare(rs) =~= rs);
    }
}

proof fn lemma_bare_repeated(rs: Seq<ResourceView>, from: int)
    ensures
        repeated(bare(rs), from) == repeated(rs, from),
    decreases rs.len() - from,
{
    if 0 <= from && from + 1 < rs.len() {
        lemma_bare_repeated(rs, from + 1);
    }
}

proof fn lemma_bare_chosen(
    rs: Seq<ResourceView>,
    base: Option<(Seq<u8>, Seq<EntryView>)>,
    changed: Seq<Seq<char>>,
    n: int,
)
    requires
        n <= rs.len(),
    ensures
        chosen_upto(rs, base, changed, n) is Ok == (chosen_upto(bare(rs), base, changed, n) is Ok),
        chosen_upto(rs, base, changed, n) matches Err(e) ==> chosen_upto(bare(rs), base, changed, n) == Err::<
            Seq<ResourceView>,
            RpcErrorView,
        >(e),
    decreases n,
{
    if n > 0 {
        lemma_bare_chosen(rs, base, changed, n - 1);
        assert(bare(rs)[n - 1].path == rs[n - 1].path);
    }
}

/// Why nothing can be packed does not depend on what the files hold.
pub proof fn selection_needs_no_contents(
    rs: Seq<ResourceView>,
    base: Option<(Seq<char>, Seq<u8>)>,
    digest: Option<Seq<char>>,
    changed: Seq<Seq<char>>,
)
    ensures
        selection_view(rs, base, digest, changed) is Ok == (selection_view(bare(rs), base, digest, changed) is Ok),
        selection_view(rs, base, digest, changed) matches Err(e) ==> selection_view(bare(rs), base, digest, changed)
            == Err::<Seq<ResourceView>, RpcErrorView>(e),
{
    let s = sorted(rs);
    lemma_bare_sorted(rs);
    lemma_bare_repeated(s, 0);
    assert(bare(s).len() == s.len());
    if let Ok(b) = base_view(base, digest) {
        lemma_bare_chosen(s, b, changed, s.len() as int);
    }
}

/// Builds a pack of some files. With an earlier pack, whose digest has to be known, the files
/// outside the changed paths come out of that pack. Whatever is built can be read: it has one
/// entry for each file, at which it holds what was packed for it.
pub fn pack_chromium_datapack(
    resources: Vec<PackResource>,
    platform: &str,
    arch: &str,
    bundle_name: &str,
    base_pack: Option<BasePack>,
    base_pack_digest: Option<&str>,
    changed_prefixes: &Vec<String>,
) -> (r: Result<DataPack, RpcError>)
    ensures
        match selection_view(
            resource_views(resources@),
            opt_base(base_pack),
            opt_str(base_pack_digest),
            views(changed_prefixes@),
        ) {
            Err(e) => fails(r, e),
            Ok(rs) => {
                let end = pack_end(rs, platform@, arch@, bundle_name@);
                if end > u32::MAX {
                    fails(
                        r,
                        rpc_error(
                            "OFFICE_PACK_SIZE_LIMIT"@,
                            "DataPack exceeds 4 GiB offset limit: "@ + decimal(end as nat),
                        ),
                    )
                } else {
                    let manifest = manifest_bytes(rs, platform@, arch@, bundle_name@);
                    r matches Ok(pack) && {
                        &&& pack.bytes@ == pack_bytes(rs, manifest)
                        &&& pack.entries == rs.len()
                        &&& pack.content_hash@ == "sha256:"@ + sha256_hex(hashed(rs))
                        &&& pack.sha256@ == "sha256:"@ + sha256_hex(pack.bytes@)
                        &&& forall|path: Seq<char>|
                            #[trigger] read_view(pack.bytes@, path) == Ok::<Seq<EntryView>, RpcErrorView>(
                                pack_entries(rs, manifest.len() as int),
                            )
                        &&& forall|i: int|
                            0 <= i < rs.len() ==> #[trigger] slice_of(
                                pack.bytes@,
                                pack_entries(rs, manifest.len() as int)[i],
                            ) == rs[i].content
                    }
                }
            },
        },
{
    let picked = match select_resources(resources, &base_pack, base_pack_digest, changed_prefixes) {
        Ok(v) => v,
        Err(e) => return Err(e),
    };
    let ghost rs = resource_views(picked@);
    let content_hash = hash_contents(&picked);
    let manifest = manifest_of(&picked, platform, arch, bundle_name, content_hash.as_str());
    let text = encode(&manifest);
    let bytes = text.as_str().as_bytes();
    let ghost mb = manifest_bytes(rs, platform@, arch@, bundle_name@);
    assert(bytes@ == mb);
    let end = end_of_pack(&picked, bytes.len());
    if end > u32::MAX as u128 {
        let size = u128_text(end);
        let message = concat2("DataPack exceeds 4 GiB offset limit: ", size.as_str());
        return Err(RpcError::new("OFFICE_PACK_SIZE_LIMIT", message.as_str()));
    }
    let packed = write_pack(&picked, bytes);
    proof {
        lemma_manifest_canonical(rs, platform@, arch@, bundle_name@, content_hash@);
        assert forall|path: Seq<char>|
            #[trigger] read_view(packed@, path) == Ok::<Seq<EntryView>, RpcErrorView>(
                pack_entries(rs, mb.len() as int),
            ) by {
            packed_files_are_read_back(rs, mb, path, platform@, arch@, bundle_name@, content_hash@);
        }
        packed_files_are_read_back(rs, mb, Seq::empty(), platform@, arch@, bundle_name@, content_hash@);
    }
    let hex = sha256_bytes(packed.as_slice());
    let sha256 = concat2("sha256:", hex.as_str());
    Ok(DataPack { bytes: packed, entries: picked.len(), content_hash: concat2("sha256:", content_hash.as_str()), sha256 })
}

} // verus!
