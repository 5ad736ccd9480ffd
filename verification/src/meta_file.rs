//! Metadata records: the unit of identity for one asset, parsed out of its
//! sidecar metadata file.

use vstd::prelude::*;
use vstd::string::*;

use crate::fingerprint::fingerprint_seq;
use crate::fingerprint::fingerprint_str;
use crate::text::append_meta_suffix;
use crate::text::ends_with;
use crate::text::ends_with_seq;
use crate::text::find_marker;
use crate::text::find_marker_from;
use crate::text::find_newline;
use crate::text::join_path;
use crate::text::join_seq;
use crate::text::meta_suffix;
use crate::text::newline_from;
use crate::text::occ_at;
use crate::text::trim_spec;
use crate::text::trim_substring;

verus! {

/// Mathematical image of one metadata record.
pub struct MetaFileV {
    pub directory: Seq<char>,
    pub base_name: Seq<char>,
    pub guid: Seq<char>,
    pub guid_hash: u64,
    pub base_hash: u64,
}

impl MetaFileV {
    /// Every record that is kept carries a non-empty identifier and
    /// fingerprints derived from its identifier and its base name.
    pub open spec fn wf(self) -> bool {
        &&& self.guid.len() > 0
        &&& self.guid_hash == fingerprint_seq(self.guid)
        &&& self.base_hash == fingerprint_seq(self.base_name)
    }
}

/// One asset's metadata record: where the asset lives, its base name, its
/// unique identifier, and the two fingerprints used for fast comparison.
#[derive(Debug, Clone)]
pub struct MetaFile {
    /// The directory of this metadata file.
    pub directory: String,
    /// The base name of the asset this record describes.
    pub base_name: String,
    /// The unique identifier assigned to the asset.
    pub guid: String,
    /// Fingerprint of the identifier.
    pub guid_hash: u64,
    /// Fingerprint of the base name.
    pub base_hash: u64,
}

impl View for MetaFile {
    type V = MetaFileV;

    open spec fn view(&self) -> MetaFileV {
        MetaFileV {
            directory: self.directory@,
            base_name: self.base_name@,
            guid: self.guid@,
            guid_hash: self.guid_hash,
            base_hash: self.base_hash,
        }
    }
}

/// The views of a sequence of records.
pub open spec fn meta_views(s: Seq<MetaFile>) -> Seq<MetaFileV> {
    s.map_values(|m: MetaFile| m@)
}

/// The identifier a metadata text yields: the remainder, trimmed, of the
/// first line holding the marker; `None` when no line holds the marker or
/// when the remainder trims to nothing.
pub open spec fn guid_of_text(text: Seq<char>) -> Option<Seq<char>> {
    match find_marker_from(text, 0) {
        None => None,
        Some(p) => {
            let g = trim_spec(text.subrange(p + 6, newline_from(text, p + 6)));
            if g.len() > 0 {
                Some(g)
            } else {
                None
            }
        },
    }
}

impl MetaFile {
    /// Parses one metadata text into the record of the asset at
    /// `directory`/`base_name`. Returns `None`, and the file is discarded,
    /// when the text yields no identifier.
    pub fn from_meta_text(directory: String, base_name: String, text: &str) -> (r: Option<
        MetaFile,
    >)
        ensures
            match r {
                Some(m) => {
                    &&& guid_of_text(text@) == Some(m.guid@)
                    &&& m@.wf()
                    &&& m.directory@ == directory@
                    &&& m.base_name@ == base_name@
                    &&& m.guid_hash == fingerprint_seq(m.guid@)
                    &&& m.base_hash == fingerprint_seq(base_name@)
                },
                None => guid_of_text(text@) is None,
            },
    {
        match find_marker(text, 0) {
            None => None,
            Some(p) => {
                proof {
                    lemma_find_marker_from_in_range(text@, 0, p as int);
                }
                let e = find_newline(text, p + 6);
                let guid = trim_substring(text, p + 6, e);
                if guid.unicode_len() == 0 {
                    None
                } else {
                    let guid_hash = fingerprint_str(guid.as_str());
                    let base_hash = fingerprint_str(base_name.as_str());
                    Some(MetaFile { directory, base_name, guid, guid_hash, base_hash })
                }
            },
        }
    }

    /// Returns the asset and metadata-file paths of this record with its
    /// directory replaced by `stem`.
    pub fn get_paths_stem(&self, stem: &str) -> (r: (String, String))
        ensures
            r.0@ == join_seq(stem@, self.base_name@),
            r.1@ == join_seq(stem@, self.base_name@) + meta_suffix(),
    {
        let asset = join_path(stem, self.base_name.as_str());
        let meta = append_meta_suffix(asset.as_str());
        (asset, meta)
    }

    /// Returns the asset and metadata-file paths of this record in place.
    pub fn get_paths(&self) -> (r: (String, String))
        ensures
            r.0@ == join_seq(self.directory@, self.base_name@),
            r.1@ == join_seq(self.directory@, self.base_name@) + meta_suffix(),
    {
        let asset = join_path(self.directory.as_str(), self.base_name.as_str());
        let meta = append_meta_suffix(asset.as_str());
        (asset, meta)
    }

    /// An exact copy of this record.
    pub fn duplicate(&self) -> (r: MetaFile)
        ensures
            r@ == self@,
    {
        MetaFile {
            directory: self.directory.clone(),
            base_name: self.base_name.clone(),
            guid: self.guid.clone(),
            guid_hash: self.guid_hash,
            base_hash: self.base_hash,
        }
    }
}

/// Whether a file name names a sidecar metadata file: it ends with the
/// metadata suffix, with a base name before it.
pub fn is_meta_file_name(name: &str) -> (r: bool)
    ensures
        r == (ends_with_seq(name@, meta_suffix()) && name@.len() > 5),
{
    proof {
        reveal_strlit(".meta");
        assert(".meta"@ =~= meta_suffix());
    }
    let n = name.unicode_len();
    n > 5 && ends_with(name, ".meta")
}

/// A found marker position lies in range and carries a marker occurrence.
proof fn lemma_find_marker_from_in_range(s: Seq<char>, i: int, p: int)
    requires
        find_marker_from(s, i) == Some(p),
    ensures
        i <= p,
        occ_at(s, p),
    decreases s.len() - i,
{
    if i < 0 || i + 6 > s.len() {
    } else if occ_at(s, i) {
    } else {
        lemma_find_marker_from_in_range(s, i + 1, p);
    }
}

/// The first marker occurrence is the one found: searching from `i` yields
/// `p` when the marker occurs at `p` and nowhere between.
pub proof fn lemma_find_marker_from_first(s: Seq<char>, i: int, p: int)
    requires
        0 <= i <= p,
        occ_at(s, p),
        forall|j: int| i <= j < p ==> !occ_at(s, j),
    ensures
        find_marker_from(s, i) == Some(p),
    decreases p - i,
{
    if i < p {
        lemma_find_marker_from_first(s, i + 1, p);
    }
}

/// Searching finds nothing where the marker occurs nowhere.
pub proof fn lemma_find_marker_from_none(s: Seq<char>, i: int)
    requires
        forall|j: int| i <= j ==> !occ_at(s, j),
    ensures
        find_marker_from(s, i) is None,
    decreases s.len() - i,
{
    if i >= 0 && i + 6 <= s.len() {
        lemma_find_marker_from_none(s, i + 1);
    }
}

/// A metadata text whose first marker line carries a value that trims to
/// something non-empty parses to exactly that trimmed value.
pub proof fn lemma_wellformed_guid_line_parsed(text: Seq<char>, p: int)
    requires
        occ_at(text, p),
        forall|j: int| 0 <= j < p ==> !occ_at(text, j),
        trim_spec(text.subrange(p + 6, newline_from(text, p + 6))).len() > 0,
    ensures
        guid_of_text(text) == Some(
            trim_spec(text.subrange(p + 6, newline_from(text, p + 6))),
        ),
{
    lemma_find_marker_from_first(text, 0, p);
}

/// A metadata text with no marker occurrence yields no identifier: such a
/// file is omitted at collection.
pub proof fn lemma_no_marker_no_guid(text: Seq<char>)
    requires
        forall|j: int| !occ_at(text, j),
    ensures
        guid_of_text(text) is None,
{
    lemma_find_marker_from_none(text, 0);
}

} // verus!
