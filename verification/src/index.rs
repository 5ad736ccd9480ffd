//! The index builder: given the collected source and destination records,
//! computes which source records are absent from the destination (the
//! missing set) and which are present under a different identifier (the
//! remap table).

use vstd::prelude::*;

use crate::meta_file::meta_views;
use crate::meta_file::MetaFile;
use crate::meta_file::MetaFileV;
use crate::text::str_eq;

verus! {

/// The verdict on one source record against the destination records.
pub enum IndexDecision {
    /// A destination record carries the same identifier fingerprint: the
    /// asset is already present verbatim.
    Present,
    /// A destination record carries the same base-name fingerprint under a
    /// different identifier: the same logical asset was renamed.
    Remapped(MetaFileV),
    /// No destination counterpart at all.
    Missing,
}

/// The verdict reached by scanning the destination records from position
/// `j` on: the first record matching by identifier or by base name wins,
/// and the identifier check takes priority per candidate.
pub open spec fn decision_from(s: MetaFileV, dst: Seq<MetaFileV>, j: int) -> IndexDecision
    decreases dst.len() - j,
{
    if j < 0 || j >= dst.len() {
        IndexDecision::Missing
    } else if s.guid_hash == dst[j].guid_hash {
        IndexDecision::Present
    } else if s.base_hash == dst[j].base_hash {
        IndexDecision::Remapped(dst[j])
    } else {
        decision_from(s, dst, j + 1)
    }
}

/// The verdict on `s` against the whole destination collection.
pub open spec fn decision(s: MetaFileV, dst: Seq<MetaFileV>) -> IndexDecision {
    decision_from(s, dst, 0)
}

/// The source records, in order, with no destination counterpart.
pub open spec fn spec_missing(src: Seq<MetaFileV>, dst: Seq<MetaFileV>) -> Seq<MetaFileV>
    decreases src.len(),
{
    if src.len() == 0 {
        Seq::empty()
    } else {
        let head = spec_missing(src.drop_last(), dst);
        if decision(src.last(), dst) is Missing {
            head.push(src.last())
        } else {
            head
        }
    }
}

/// The remap table the sources build: each renamed source record's
/// identifier maps to the destination record that represents the same
/// logical asset, later records overriding earlier ones of equal identifier.
pub open spec fn spec_remap(src: Seq<MetaFileV>, dst: Seq<MetaFileV>) -> Map<
    Seq<char>,
    MetaFileV,
>
    decreases src.len(),
{
    if src.len() == 0 {
        Map::empty()
    } else {
        let head = spec_remap(src.drop_last(), dst);
        match decision(src.last(), dst) {
            IndexDecision::Remapped(d) => head.insert(src.last().guid, d),
            _ => head,
        }
    }
}

/// One remap-table entry: a source identifier and the destination record
/// that stands for the same logical asset.
pub struct RemapEntry {
    /// The identifier as the source tree writes it.
    pub source_guid: String,
    /// The destination record it is rewritten to.
    pub target: MetaFile,
}

/// The table of entries for the map seen by the entries' insertion order,
/// a later entry overriding an earlier one of equal identifier.
pub open spec fn map_of_entries(entries: Seq<RemapEntry>) -> Map<Seq<char>, MetaFileV>
    decreases entries.len(),
{
    if entries.len() == 0 {
        Map::empty()
    } else {
        map_of_entries(entries.drop_last()).insert(
            entries.last().source_guid@,
            entries.last().target@,
        )
    }
}

/// Mapping from a source identifier to the destination record that
/// represents the same logical asset under a different identifier. Built
/// once per migration run, read-only thereafter.
pub struct RemapTable {
    entries: Vec<RemapEntry>,
}

impl View for RemapTable {
    type V = Map<Seq<char>, MetaFileV>;

    closed spec fn view(&self) -> Map<Seq<char>, MetaFileV> {
        map_of_entries(self.entries@)
    }
}

impl RemapTable {
    /// An empty table.
    pub fn new() -> (r: RemapTable)
        ensures
            r@ == Map::<Seq<char>, MetaFileV>::empty(),
    {
        RemapTable { entries: Vec::new() }
    }

    /// Records that `source_guid` is represented by `target` in the
    /// destination tree.
    pub fn insert(&mut self, source_guid: String, target: MetaFile)
        ensures
            final(self)@ == old(self)@.insert(source_guid@, target@),
    {
        let ghost old_entries = self.entries@;
        let ghost key = source_guid@;
        let ghost value = target@;
        self.entries.push(RemapEntry { source_guid, target });
        proof {
            assert(self.entries@.drop_last() =~= old_entries);
            assert(self.entries@.last().source_guid@ == key);
            assert(self.entries@.last().target@ == value);
        }
    }

    /// Looks the identifier up, returning the destination record it was
    /// remapped to, if any.
    pub fn lookup(&self, guid: &str) -> (r: Option<&MetaFile>)
        ensures
            match r {
                Some(m) => self@.contains_key(guid@) && m@ == self@[guid@],
                None => !self@.contains_key(guid@),
            },
    {
        let n = self.entries.len();
        proof {
            assert(self.entries@.take(n as int) =~= self.entries@);
        }
        let mut j: usize = n;
        while j > 0
            invariant
                0 <= j <= n,
                n == self.entries@.len(),
                self@ == map_of_entries(self.entries@),
                map_of_entries(self.entries@.take(j as int)).contains_key(guid@)
                    == self@.contains_key(guid@),
                self@.contains_key(guid@) ==> map_of_entries(self.entries@.take(j as int))[guid@]
                    == self@[guid@],
            decreases j,
        {
            proof {
                assert(self.entries@.take(j as int).drop_last() =~= self.entries@.take(j - 1));
                assert(self.entries@.take(j as int).last() == self.entries@[j - 1]);
            }
            let e = &self.entries[j - 1];
            if str_eq(e.source_guid.as_str(), guid) {
                return Some(&e.target);
            }
            j = j - 1;
        }
        proof {
            assert(self.entries@.take(0) =~= Seq::<RemapEntry>::empty());
        }
        None
    }
}

/// Finds the first destination record matching `s` by identifier or by
/// base-name fingerprint, if any.
fn find_first_match(s: &MetaFile, dst: &Vec<MetaFile>) -> (r: Option<usize>)
    ensures
        match r {
            Some(j) => {
                &&& 0 <= j < dst@.len()
                &&& decision(s@, meta_views(dst@)) == (if s.guid_hash == dst@[j as int].guid_hash {
                    IndexDecision::Present
                } else {
                    IndexDecision::Remapped(dst@[j as int]@)
                })
                &&& (s.guid_hash == dst@[j as int].guid_hash
                    || s.base_hash == dst@[j as int].base_hash)
            },
            None => decision(s@, meta_views(dst@)) is Missing,
        },
{
    let ghost dv = meta_views(dst@);
    let n = dst.len();
    let mut j: usize = 0;
    while j < n
        invariant
            0 <= j <= n,
            n == dst@.len(),
            dv == meta_views(dst@),
            dv.len() == n,
            forall|k: int| 0 <= k < n ==> dv[k] == dst@[k]@,
            decision(s@, dv) == decision_from(s@, dv, j as int),
        decreases n - j,
    {
        if s.guid_hash == dst[j].guid_hash {
            return Some(j);
        }
        if s.base_hash == dst[j].base_hash {
            return Some(j);
        }
        j = j + 1;
    }
    None
}

/// Builds the index: scans every source record against the destination
/// records and returns the missing set and the remap table.
pub fn build_index(src: &Vec<MetaFile>, dst: &Vec<MetaFile>) -> (r: (Vec<MetaFile>, RemapTable))
    ensures
        meta_views(r.0@) == spec_missing(meta_views(src@), meta_views(dst@)),
        r.1@ == spec_remap(meta_views(src@), meta_views(dst@)),
{
    let ghost sv = meta_views(src@);
    let ghost dv = meta_views(dst@);
    let mut missing: Vec<MetaFile> = Vec::new();
    let mut remap = RemapTable::new();
    let n = src.len();
    let mut i: usize = 0;
    while i < n
        invariant
            0 <= i <= n,
            n == src@.len(),
            sv == meta_views(src@),
            dv == meta_views(dst@),
            sv.len() == n,
            forall|k: int| 0 <= k < n ==> sv[k] == src@[k]@,
            meta_views(missing@) == spec_missing(sv.take(i as int), dv),
            remap@ == spec_remap(sv.take(i as int), dv),
        decreases n - i,
    {
        let ghost prefix = sv.take(i as int);
        proof {
            assert(sv.take(i + 1).drop_last() =~= prefix);
            assert(sv.take(i + 1).last() == sv[i as int]);
        }
        let s = &src[i];
        match find_first_match(s, dst) {
            None => {
                let ghost old_missing = missing@;
                missing.push(s.duplicate());
                proof {
                    assert(meta_views(missing@) =~= meta_views(old_missing).push(s@));
                }
            },
            Some(j) => {
                if s.guid_hash == dst[j].guid_hash {
                    // already present verbatim: neither missing nor remapped
                } else {
                    remap.insert(s.guid.clone(), dst[j].duplicate());
                }
            },
        }
        i = i + 1;
    }
    proof {
        assert(sv.take(n as int) =~= sv);
    }
    (missing, remap)
}

/// Scanning may start past any unmatching prefix of the destinations.
proof fn lemma_decision_skip(s: MetaFileV, dst: Seq<MetaFileV>, j: int)
    requires
        0 <= j <= dst.len(),
        forall|k: int| 0 <= k < j ==> s.guid_hash != dst[k].guid_hash && s.base_hash != dst[k].base_hash,
    ensures
        decision(s, dst) == decision_from(s, dst, j),
    decreases j,
{
    if j > 0 {
        lemma_decision_skip(s, dst, j - 1);
    }
}

/// Every record in the missing set is a source record whose verdict was
/// `Missing`.
pub proof fn lemma_missing_members(src: Seq<MetaFileV>, dst: Seq<MetaFileV>, m: MetaFileV)
    requires
        spec_missing(src, dst).contains(m),
    ensures
        exists|k: int| 0 <= k < src.len() && src[k] == m && decision(src[k], dst) is Missing,
    decreases src.len(),
{
    if src.len() > 0 {
        let head = spec_missing(src.drop_last(), dst);
        if decision(src.last(), dst) is Missing && m == src.last() {
            assert(src[src.len() - 1] == m);
        } else {
            assert(head.contains(m));
            lemma_missing_members(src.drop_last(), dst, m);
            let k = choose|k: int|
                0 <= k < src.drop_last().len() && src.drop_last()[k] == m && decision(
                    src.drop_last()[k],
                    dst,
                ) is Missing;
            assert(src[k] == m);
        }
    }
}

/// A source record whose verdict is not `Missing` does not enter the
/// missing set, identifiers being unique across the source records.
pub proof fn lemma_not_missing_excluded(src: Seq<MetaFileV>, dst: Seq<MetaFileV>, i: int)
    requires
        0 <= i < src.len(),
        !(decision(src[i], dst) is Missing),
        forall|k: int| 0 <= k < src.len() && k != i ==> src[k].guid != src[i].guid,
    ensures
        !spec_missing(src, dst).contains(src[i]),
{
    if spec_missing(src, dst).contains(src[i]) {
        lemma_missing_members(src, dst, src[i]);
        let k = choose|k: int|
            0 <= k < src.len() && src[k] == src[i] && decision(src[k], dst) is Missing;
        assert(k != i);
        assert(src[k].guid == src[i].guid);
    }
}

/// Every key of the remap table is the identifier of a renamed source
/// record.
pub proof fn lemma_remap_keys(src: Seq<MetaFileV>, dst: Seq<MetaFileV>, g: Seq<char>)
    requires
        spec_remap(src, dst).contains_key(g),
    ensures
        exists|k: int| 0 <= k < src.len() && src[k].guid == g && decision(src[k], dst) is Remapped,
    decreases src.len(),
{
    if src.len() > 0 {
        let head = spec_remap(src.drop_last(), dst);
        if decision(src.last(), dst) is Remapped && src.last().guid == g {
            assert(src[src.len() - 1].guid == g);
        } else {
            assert(head.contains_key(g));
            lemma_remap_keys(src.drop_last(), dst, g);
            let k = choose|k: int|
                0 <= k < src.drop_last().len() && src.drop_last()[k].guid == g && decision(
                    src.drop_last()[k],
                    dst,
                ) is Remapped;
            assert(src[k].guid == g);
        }
    }
}

/// A renamed source record's identifier maps to its destination record,
/// identifiers being unique across the source records.
proof fn lemma_remap_value(src: Seq<MetaFileV>, dst: Seq<MetaFileV>, i: int, d: MetaFileV)
    requires
        0 <= i < src.len(),
        decision(src[i], dst) == IndexDecision::Remapped(d),
        forall|k: int| i < k < src.len() ==> src[k].guid != src[i].guid,
    ensures
        spec_remap(src, dst).contains_key(src[i].guid),
        spec_remap(src, dst)[src[i].guid] == d,
    decreases src.len(),
{
    if i == src.len() - 1 {
    } else {
        assert(src.drop_last()[i] == src[i]);
        lemma_remap_value(src.drop_last(), dst, i, d);
        assert(src.last().guid != src[i].guid);
    }
}

/// An identifier match excludes the source record from the index: if some
/// destination record carries the same identifier fingerprint and no
/// earlier destination record matches by identifier or name, the source
/// record stands in neither the missing set nor the remap table.
pub proof fn lemma_identifier_match_excluded(
    src: Seq<MetaFileV>,
    dst: Seq<MetaFileV>,
    i: int,
    j: int,
)
    requires
        0 <= i < src.len(),
        0 <= j < dst.len(),
        src[i].guid_hash == dst[j].guid_hash,
        forall|k: int|
            0 <= k < j ==> src[i].guid_hash != dst[k].guid_hash && src[i].base_hash
                != dst[k].base_hash,
        forall|k: int| 0 <= k < src.len() && k != i ==> src[k].guid != src[i].guid,
    ensures
        !spec_missing(src, dst).contains(src[i]),
        !spec_remap(src, dst).contains_key(src[i].guid),
{
    lemma_decision_skip(src[i], dst, j);
    assert(decision(src[i], dst) is Present);
    lemma_not_missing_excluded(src, dst, i);
    if spec_remap(src, dst).contains_key(src[i].guid) {
        lemma_remap_keys(src, dst, src[i].guid);
        let k = choose|k: int|
            0 <= k < src.len() && src[k].guid == src[i].guid && decision(src[k], dst) is Remapped;
        assert(k == i);
    }
}

/// A base-name match under a different identifier remaps the source record:
/// if the first acceptable destination match for a source record matches by
/// base name only, the remap table sends the source identifier to that
/// destination record, and the source record is not missing.
pub proof fn lemma_renamed_match_remapped(
    src: Seq<MetaFileV>,
    dst: Seq<MetaFileV>,
    i: int,
    j: int,
)
    requires
        0 <= i < src.len(),
        0 <= j < dst.len(),
        src[i].guid_hash != dst[j].guid_hash,
        src[i].base_hash == dst[j].base_hash,
        forall|k: int|
            0 <= k < j ==> src[i].guid_hash != dst[k].guid_hash && src[i].base_hash
                != dst[k].base_hash,
        forall|k: int| 0 <= k < src.len() && k != i ==> src[k].guid != src[i].guid,
    ensures
        spec_remap(src, dst).contains_key(src[i].guid),
        spec_remap(src, dst)[src[i].guid] == dst[j],
        !spec_missing(src, dst).contains(src[i]),
{
    lemma_decision_skip(src[i], dst, j);
    assert(decision(src[i], dst) == IndexDecision::Remapped(dst[j]));
    lemma_remap_value(src, dst, i, dst[j]);
    lemma_not_missing_excluded(src, dst, i);
}

} // verus!
