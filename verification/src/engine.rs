//! The migration engine: consumes a queue of conversion tasks, rewrites
//! remapped identifier references inside each asset's text, emits the copy
//! actions that pull missing referenced assets into the export tree, and
//! enqueues convertible dependencies for the same treatment.

use vstd::prelude::*;
use vstd::string::*;

use crate::index::RemapTable;
use crate::meta_file::meta_views;
use crate::meta_file::MetaFile;
use crate::meta_file::MetaFileV;
use crate::text::ends_with;
use crate::text::ends_with_seq;
use crate::text::file_name;
use crate::text::file_name_spec;
use crate::text::join_path;
use crate::text::join_seq;
use crate::text::marker_at;
use crate::text::meta_suffix;
use crate::text::occ_at;
use crate::text::parent_dir;
use crate::text::parent_spec;
use crate::text::starts_with;
use crate::text::starts_with_seq;
use crate::text::str_eq;
use crate::text::str_to_chars;
use crate::text::string_views;
use crate::text::strip_root;
use crate::text::strip_root_spec;
use crate::text::append_meta_suffix;

verus! {

/// Mathematical image of one conversion task.
#[verifier::ext_equal]
pub struct TaskV {
    pub path: Seq<char>,
    pub output_path: Seq<char>,
}

/// One unit of migration work: the path of an asset to convert and the
/// export-tree directory that receives the converted copy. Two tasks are
/// equal when their source paths are equal.
#[derive(Debug)]
pub struct AssetConversion {
    /// Path of the asset to convert.
    pub path: String,
    /// Directory in the export tree that receives the result.
    pub output_path: String,
}

impl View for AssetConversion {
    type V = TaskV;

    open spec fn view(&self) -> TaskV {
        TaskV { path: self.path@, output_path: self.output_path@ }
    }
}

impl PartialEq for AssetConversion {
    fn eq(&self, other: &AssetConversion) -> bool {
        self.path == other.path
    }
}

impl vstd::std_specs::cmp::PartialEqSpecImpl for AssetConversion {
    open spec fn obeys_eq_spec() -> bool {
        true
    }

    open spec fn eq_spec(&self, other: &AssetConversion) -> bool {
        self.path@ == other.path@
    }
}

/// The views of a sequence of tasks.
pub open spec fn task_views(s: Seq<AssetConversion>) -> Seq<TaskV> {
    s.map_values(|t: AssetConversion| t@)
}

/// Mathematical image of one filesystem effect.
#[verifier::ext_equal]
pub enum ActionV {
    EnsureDir { path: Seq<char> },
    CopyIfAbsent { from: Seq<char>, to: Seq<char> },
    WriteRewritten { path: Seq<char> },
}

/// One filesystem effect the engine asks its caller to perform. The caller
/// performs them in order: a copy is skipped when its source is absent or
/// its destination already exists — an existing file is never overwritten.
#[derive(Debug, Clone)]
pub enum FileAction {
    /// Create this directory and its missing parents; failure to create is
    /// tolerated, consistent with re-runnability.
    EnsureDir { path: String },
    /// Copy `from` to `to` if `from` exists and `to` does not.
    CopyIfAbsent { from: String, to: String },
    /// Write the rewritten asset text to `path`.
    WriteRewritten { path: String },
}

impl View for FileAction {
    type V = ActionV;

    open spec fn view(&self) -> ActionV {
        match self {
            FileAction::EnsureDir { path } => ActionV::EnsureDir { path: path@ },
            FileAction::CopyIfAbsent { from, to } => ActionV::CopyIfAbsent {
                from: from@,
                to: to@,
            },
            FileAction::WriteRewritten { path } => ActionV::WriteRewritten { path: path@ },
        }
    }
}

/// The views of a sequence of actions.
pub open spec fn action_views(s: Seq<FileAction>) -> Seq<ActionV> {
    s.map_values(|a: FileAction| a@)
}

/// The read-only surroundings of one migration run: the remap table and the
/// configuration it was started with.
#[verifier::ext_equal]
pub struct EngineEnv {
    pub remap: Map<Seq<char>, MetaFileV>,
    pub extensions: Seq<Seq<char>>,
    pub source_root: Seq<char>,
    pub export_root: Seq<char>,
}

/// Mathematical image of the engine.
#[verifier::ext_equal]
pub struct EngineV {
    pub queue: Seq<TaskV>,
    pub missing: Seq<MetaFileV>,
    pub env: EngineEnv,
}

impl EngineV {
    /// Every missing record's directory lies under the source root, as
    /// collection under that root guarantees.
    pub open spec fn missing_rooted(self) -> bool {
        forall|k: int|
            0 <= k < self.missing.len() ==> starts_with_seq(
                self.missing[k].directory,
                self.env.source_root,
            )
    }
}

/// The migration engine's state: the task queue, the missing set it drains,
/// and the read-only index and configuration.
pub struct MigrationEngine {
    /// Pending conversion tasks, processed last-in first-out.
    pub queue: Vec<AssetConversion>,
    /// Source records with no destination counterpart, pending copy.
    pub missing: Vec<MetaFile>,
    /// Source identifiers the destination holds under another identifier.
    pub remap: RemapTable,
    /// Filename extensions that mark an asset as convertible.
    pub extensions: Vec<String>,
    /// Root of the source asset tree.
    pub source_root: String,
    /// Root of the export tree.
    pub export_root: String,
}

impl View for MigrationEngine {
    type V = EngineV;

    open spec fn view(&self) -> EngineV {
        EngineV {
            queue: task_views(self.queue@),
            missing: meta_views(self.missing@),
            env: EngineEnv {
                remap: self.remap@,
                extensions: string_views(self.extensions@),
                source_root: self.source_root@,
                export_root: self.export_root@,
            },
        }
    }
}

/// Position of the first record in `missing` carrying the identifier `g`,
/// scanning from `k` on, if any.
pub open spec fn find_missing_from(missing: Seq<MetaFileV>, g: Seq<char>, k: int) -> Option<int>
    decreases missing.len() - k,
{
    if k < 0 || k >= missing.len() {
        None
    } else if missing[k].guid == g {
        Some(k)
    } else {
        find_missing_from(missing, g, k + 1)
    }
}

/// A base name with one of the configured extensions marks a convertible
/// asset.
pub open spec fn is_convertible(extensions: Seq<Seq<char>>, name: Seq<char>) -> bool {
    exists|e: int| 0 <= e < extensions.len() && ends_with_seq(name, extensions[e])
}

/// Some queued task already points at this source path.
pub open spec fn queue_has_path(queue: Seq<TaskV>, path: Seq<char>) -> bool {
    exists|t: int| 0 <= t < queue.len() && queue[t].path == path
}

/// `buf` with the 32 characters at `at` replaced by `g`.
pub open spec fn splice32(buf: Seq<char>, at: int, g: Seq<char>) -> Seq<char> {
    buf.take(at) + g + buf.skip(at + 32)
}

/// The engine's working state while one asset text is scanned: the output
/// buffer, the missing set, the task queue and the actions emitted so far.
#[verifier::ext_equal]
pub struct ScanState {
    pub buf: Seq<char>,
    pub missing: Seq<MetaFileV>,
    pub queue: Seq<TaskV>,
    pub actions: Seq<ActionV>,
}

/// What one marker occurrence at position `i` of `orig` does to the state.
///
/// The 32 characters after the marker name a reference. A remapped
/// reference is rewritten in place (when the replacement identifier has the
/// expected 32 characters; a malformed replacement is tolerated by leaving
/// the text unchanged). Otherwise, a reference into the missing set copies
/// the referenced asset and its metadata file to the mirrored export
/// directory, enqueues the asset if it is convertible and not yet queued,
/// and removes the record from the missing set, so a later reference to the
/// same asset is a no-op. A reference matching neither is left unchanged.
pub open spec fn scan_step(env: EngineEnv, orig: Seq<char>, st: ScanState, i: int) -> ScanState {
    let g = orig.subrange(i + 6, i + 38);
    if env.remap.contains_key(g) {
        let t = env.remap[g];
        if t.guid.len() == 32 {
            ScanState {
                buf: splice32(st.buf, i + 6, t.guid),
                missing: st.missing,
                queue: st.queue,
                actions: st.actions,
            }
        } else {
            st
        }
    } else {
        match find_missing_from(st.missing, g, 0) {
            None => st,
            Some(k) => {
                let found = st.missing[k];
                let export_dir = join_seq(
                    env.export_root,
                    strip_root_spec(found.directory, env.source_root),
                );
                let asset_src = join_seq(found.directory, found.base_name);
                let asset_dst = join_seq(export_dir, found.base_name);
                let new_actions = st.actions.push(ActionV::EnsureDir { path: export_dir }).push(
                    ActionV::CopyIfAbsent { from: asset_src, to: asset_dst },
                ).push(
                    ActionV::CopyIfAbsent {
                        from: asset_src + meta_suffix(),
                        to: asset_dst + meta_suffix(),
                    },
                );
                let new_queue = if is_convertible(env.extensions, found.base_name)
                    && !queue_has_path(st.queue, asset_src) {
                    st.queue.push(TaskV { path: asset_src, output_path: export_dir })
                } else {
                    st.queue
                };
                ScanState {
                    buf: st.buf,
                    missing: st.missing.remove(k),
                    queue: new_queue,
                    actions: new_actions,
                }
            },
        }
    }
}

/// The state after every marker occurrence at position `i` or later of
/// `orig` has been processed, in order.
pub open spec fn scan(env: EngineEnv, orig: Seq<char>, st: ScanState, i: int) -> ScanState
    decreases orig.len() - i,
{
    if i < 0 || i + 38 > orig.len() {
        st
    } else if occ_at(orig, i) {
        scan(env, orig, scan_step(env, orig, st, i), i + 1)
    } else {
        scan(env, orig, st, i + 1)
    }
}

/// What processing one task yields: the rewritten asset text and the
/// filesystem effects to perform, in order.
pub struct ProcessOutput {
    /// The asset text with every remapped reference rewritten.
    pub rewritten: Vec<char>,
    /// The effects to perform, in order.
    pub actions: Vec<FileAction>,
}

/// The task built for one explicitly requested asset path: the source path
/// itself when it already lies under the source root, else the path joined
/// under the source root; the output directory mirrors, under the export
/// root, the directory of the requested asset relative to the source root.
pub open spec fn initial_task_spec(env: EngineEnv, raw: Seq<char>) -> TaskV {
    let sanitized = if starts_with_seq(raw, env.source_root) {
        strip_root_spec(raw, env.source_root)
    } else {
        raw
    };
    let import = if starts_with_seq(raw, env.source_root) {
        raw
    } else {
        join_seq(env.source_root, raw)
    };
    TaskV { path: import, output_path: parent_spec(join_seq(env.export_root, sanitized)) }
}

impl MigrationEngine {
    /// An engine over the given index and configuration, with an empty task
    /// queue.
    pub fn new(
        missing: Vec<MetaFile>,
        remap: RemapTable,
        extensions: Vec<String>,
        source_root: String,
        export_root: String,
    ) -> (r: MigrationEngine)
        ensures
            r@.queue.len() == 0,
            r@.missing == meta_views(missing@),
            r@.env.remap == remap@,
            r@.env.extensions == string_views(extensions@),
            r@.env.source_root == source_root@,
            r@.env.export_root == export_root@,
    {
        let r = MigrationEngine {
            queue: Vec::new(),
            missing,
            remap,
            extensions,
            source_root,
            export_root,
        };
        proof {
            assert(task_views(r.queue@) =~= Seq::<TaskV>::empty());
        }
        r
    }

    /// Builds the conversion task for one explicitly requested asset path.
    pub fn initial_task(&self, raw: &str) -> (t: AssetConversion)
        ensures
            t@ == initial_task_spec(self@.env, raw@),
    {
        let under_root = starts_with(raw, self.source_root.as_str());
        let sanitized = if under_root {
            strip_root(raw, self.source_root.as_str())
        } else {
            raw.to_owned()
        };
        let joined = join_path(self.export_root.as_str(), sanitized.as_str());
        let output_path = parent_dir(joined.as_str());
        let path = if under_root {
            raw.to_owned()
        } else {
            join_path(self.source_root.as_str(), raw)
        };
        AssetConversion { path, output_path }
    }

    /// Queues one task.
    pub fn push_task(&mut self, t: AssetConversion)
        ensures
            final(self)@.queue == old(self)@.queue.push(t@),
            final(self)@.missing == old(self)@.missing,
            final(self)@.env == old(self)@.env,
    {
        let ghost tv = t@;
        self.queue.push(t);
        proof {
            assert(task_views(self.queue@) =~= task_views(old(self).queue@).push(tv));
        }
    }

    /// Pops the most recently queued task, if any.
    pub fn pop_task(&mut self) -> (r: Option<AssetConversion>)
        ensures
            final(self)@.missing == old(self)@.missing,
            final(self)@.env == old(self)@.env,
            match r {
                Some(t) => old(self)@.queue.len() > 0 && t@ == old(self)@.queue.last()
                    && final(self)@.queue == old(self)@.queue.drop_last(),
                None => old(self)@.queue.len() == 0 && final(self)@.queue == old(self)@.queue,
            },
    {
        let r = self.queue.pop();
        proof {
            if old(self).queue@.len() > 0 {
                assert(task_views(self.queue@) =~= task_views(old(self).queue@).drop_last());
            } else {
                assert(task_views(self.queue@) =~= task_views(old(self).queue@));
            }
        }
        r
    }
}

/// The engine's working state as the specifications see it: the scan buffer
/// and emitted actions beside the engine's own missing set and queue.
pub open spec fn st_of(e: EngineV, buf: Seq<char>, actions: Seq<ActionV>) -> ScanState {
    ScanState { buf, missing: e.missing, queue: e.queue, actions }
}

impl MigrationEngine {
    /// Handles the one marker occurrence at `i` of `content`: rewrites a
    /// remapped reference in `buf`, or copies and enqueues a missing
    /// referenced asset.
    fn scan_occurrence(
        &mut self,
        content: &str,
        i: usize,
        buf: &mut Vec<char>,
        actions: &mut Vec<FileAction>,
    )
        requires
            occ_at(content@, i as int),
            i + 38 <= content@.len(),
            content@.len() <= usize::MAX,
            old(buf)@.len() == content@.len(),
            old(self)@.missing_rooted(),
        ensures
            st_of(final(self)@, final(buf)@, action_views(final(actions)@)) == scan_step(
                old(self)@.env,
                content@,
                st_of(old(self)@, old(buf)@, action_views(old(actions)@)),
                i as int,
            ),
            final(self)@.env == old(self)@.env,
            final(self)@.missing_rooted(),
            final(buf)@.len() == old(buf)@.len(),
    {
        let ghost env = old(self)@.env;
        let ghost st0 = st_of(old(self)@, old(buf)@, action_views(old(actions)@));
        let ghost g = content@.subrange(i + 6, i + 38);
        let gstr = content.substring_char(i + 6, i + 38);
        let target = match self.remap.lookup(gstr) {
            Some(m) => Some(m.duplicate()),
            None => None,
        };
        match target {
            Some(m) => {
                proof {
                    assert(env.remap.contains_key(g));
                    assert(m@ == env.remap[g]);
                }
                if m.guid.as_str().unicode_len() == 32 {
                    write_chars32(buf, i + 6, m.guid.as_str());
                    proof {
                        assert(st_of(self@, buf@, action_views(actions@)) =~= scan_step(
                            env,
                            content@,
                            st0,
                            i as int,
                        ));
                    }
                } else {
                    proof {
                        assert(st_of(self@, buf@, action_views(actions@)) =~= scan_step(
                            env,
                            content@,
                            st0,
                            i as int,
                        ));
                    }
                }
            },
            None => {
                proof {
                    assert(!env.remap.contains_key(g));
                }
                match find_missing_idx(&self.missing, gstr) {
                    None => {
                        proof {
                            assert(find_missing_from(st0.missing, g, 0) is None);
                            assert(st_of(self@, buf@, action_views(actions@)) =~= scan_step(
                                env,
                                content@,
                                st0,
                                i as int,
                            ));
                        }
                    },
                    Some(k) => {
                        proof {
                            assert(find_missing_from(st0.missing, g, 0) == Some(k as int));
                            assert(meta_views(self.missing@)[k as int] == self.missing@[k as int]@);
                            assert(starts_with_seq(
                                old(self)@.missing[k as int].directory,
                                env.source_root,
                            ));
                        }
                        let found = self.missing[k].duplicate();
                        let rel = strip_root(found.directory.as_str(), self.source_root.as_str());
                        let export_dir = join_path(self.export_root.as_str(), rel.as_str());
                        let (asset_src, meta_src) = found.get_paths();
                        let (asset_dst, meta_dst) = found.get_paths_stem(export_dir.as_str());
                        let ghost acts0 = action_views(actions@);
                        actions.push(FileAction::EnsureDir { path: export_dir.clone() });
                        actions.push(
                            FileAction::CopyIfAbsent { from: asset_src.clone(), to: asset_dst },
                        );
                        actions.push(FileAction::CopyIfAbsent { from: meta_src, to: meta_dst });
                        let ghost stepped = scan_step(env, content@, st0, i as int);
                        proof {
                            assert(action_views(actions@) =~= stepped.actions);
                        }
                        if is_convertible_exec(&self.extensions, found.base_name.as_str()) {
                            if !queue_contains_path(&self.queue, asset_src.as_str()) {
                                let ghost q0 = task_views(self.queue@);
                                self.queue.push(
                                    AssetConversion { path: asset_src, output_path: export_dir },
                                );
                                proof {
                                    assert(task_views(self.queue@) =~= stepped.queue);
                                }
                            }
                        }
                        proof {
                            assert(task_views(self.queue@) =~= stepped.queue);
                        }
                        self.missing.remove(k);
                        proof {
                            assert(meta_views(self.missing@) =~= st0.missing.remove(k as int));
                            assert(st_of(self@, buf@, action_views(actions@)) =~= stepped);
                        }
                    },
                }
            },
        }
    }

    /// Processes one conversion task against its asset text, as loaded by
    /// the caller. Every remapped reference is rewritten in the returned
    /// text; every reference to a record of the missing set emits the
    /// actions that copy the referenced asset and its metadata file into the
    /// mirrored export directory, enqueues the asset when it is convertible
    /// and not yet queued, and removes the record from the missing set. The
    /// returned actions end by creating the task's output directory, writing
    /// the rewritten text under the asset's original filename, and copying
    /// the asset's own metadata file alongside it.
    pub fn process_task(&mut self, task: &AssetConversion, content: &str) -> (r: ProcessOutput)
        requires
            old(self)@.missing_rooted(),
        ensures
            final(self)@.env == old(self)@.env,
            final(self)@.missing_rooted(),
            ({
                let st0 = ScanState {
                    buf: content@,
                    missing: old(self)@.missing,
                    queue: old(self)@.queue,
                    actions: Seq::empty(),
                };
                let stf = scan(old(self)@.env, content@, st0, 0);
                let out_file = join_seq(task.output_path@, file_name_spec(task.path@));
                &&& final(self)@.missing == stf.missing
                &&& final(self)@.queue == stf.queue
                &&& r.rewritten@ == stf.buf
                &&& action_views(r.actions@) == stf.actions.push(
                    ActionV::EnsureDir { path: task.output_path@ },
                ).push(ActionV::WriteRewritten { path: out_file }).push(
                    ActionV::CopyIfAbsent {
                        from: task.path@ + meta_suffix(),
                        to: out_file + meta_suffix(),
                    },
                )
            }),
    {
        let ghost env = old(self)@.env;
        let ghost orig = content@;
        let ghost st0 = ScanState {
            buf: content@,
            missing: old(self)@.missing,
            queue: old(self)@.queue,
            actions: Seq::empty(),
        };
        let mut buf = str_to_chars(content);
        let mut actions: Vec<FileAction> = Vec::new();
        proof {
            assert(action_views(actions@) =~= Seq::<ActionV>::empty());
            assert(st_of(self@, buf@, action_views(actions@)) =~= st0);
        }
        let n = content.unicode_len();
        if n >= 38 {
            let limit = n - 38;
            let mut i: usize = 0;
            while i <= limit
                invariant
                    0 <= i <= n,
                    n == orig.len(),
                    n >= 38,
                    limit == n - 38,
                    content@ == orig,
                    buf@.len() == orig.len(),
                    self@.env == env,
                    self@.missing_rooted(),
                    scan(env, orig, st0, 0) == scan(
                        env,
                        orig,
                        st_of(self@, buf@, action_views(actions@)),
                        i as int,
                    ),
                decreases n - i,
            {
                let ghost st_pre = st_of(self@, buf@, action_views(actions@));
                if marker_at(content, i) {
                    self.scan_occurrence(content, i, &mut buf, &mut actions);
                    proof {
                        let st_post = st_of(self@, buf@, action_views(actions@));
                        assert(st_post == scan_step(env, orig, st_pre, i as int));
                        assert(scan(env, orig, st_pre, i as int) == scan(
                            env,
                            orig,
                            st_post,
                            i + 1,
                        ));
                    }
                } else {
                    proof {
                        assert(scan(env, orig, st_pre, i as int) == scan(
                            env,
                            orig,
                            st_pre,
                            i + 1,
                        ));
                    }
                }
                i = i + 1;
            }
        }
        proof {
            assert(scan(env, orig, st0, 0) == st_of(self@, buf@, action_views(actions@)));
        }
        let fname = file_name(task.path.as_str());
        let out_file = join_path(task.output_path.as_str(), fname.as_str());
        let meta_from = append_meta_suffix(task.path.as_str());
        let meta_to = append_meta_suffix(out_file.as_str());
        let ghost acts_scan = action_views(actions@);
        actions.push(FileAction::EnsureDir { path: task.output_path.clone() });
        actions.push(FileAction::WriteRewritten { path: out_file });
        actions.push(FileAction::CopyIfAbsent { from: meta_from, to: meta_to });
        proof {
            let stf = scan(env, orig, st0, 0);
            let out_file_v = join_seq(task.output_path@, file_name_spec(task.path@));
            assert(action_views(actions@) =~= stf.actions.push(
                ActionV::EnsureDir { path: task.output_path@ },
            ).push(ActionV::WriteRewritten { path: out_file_v }).push(
                ActionV::CopyIfAbsent {
                    from: task.path@ + meta_suffix(),
                    to: out_file_v + meta_suffix(),
                },
            ));
        }
        ProcessOutput { rewritten: buf, actions }
    }
}

/// Finds the first record in `missing` carrying the identifier `g`.
fn find_missing_idx(missing: &Vec<MetaFile>, g: &str) -> (r: Option<usize>)
    ensures
        match r {
            Some(k) => 0 <= k < missing@.len() && find_missing_from(meta_views(missing@), g@, 0)
                == Some(k as int),
            None => find_missing_from(meta_views(missing@), g@, 0) is None,
        },
{
    let ghost mv = meta_views(missing@);
    let n = missing.len();
    let mut k: usize = 0;
    while k < n
        invariant
            0 <= k <= n,
            n == missing@.len(),
            mv == meta_views(missing@),
            mv.len() == n,
            forall|j: int| 0 <= j < n ==> mv[j] == missing@[j]@,
            find_missing_from(mv, g@, 0) == find_missing_from(mv, g@, k as int),
        decreases n - k,
    {
        if str_eq(missing[k].guid.as_str(), g) {
            return Some(k);
        }
        k = k + 1;
    }
    None
}

/// Whether the base name ends with one of the configured extensions.
fn is_convertible_exec(extensions: &Vec<String>, name: &str) -> (r: bool)
    ensures
        r == is_convertible(string_views(extensions@), name@),
{
    let ghost ev = string_views(extensions@);
    let n = extensions.len();
    let mut e: usize = 0;
    while e < n
        invariant
            0 <= e <= n,
            n == extensions@.len(),
            ev == string_views(extensions@),
            ev.len() == n,
            forall|j: int| 0 <= j < n ==> ev[j] == extensions@[j]@,
            forall|j: int| 0 <= j < e ==> !ends_with_seq(name@, ev[j]),
        decreases n - e,
    {
        if ends_with(name, extensions[e].as_str()) {
            proof {
                assert(0 <= e < ev.len() && ends_with_seq(name@, ev[e as int]));
            }
            return true;
        }
        e = e + 1;
    }
    false
}

/// Whether some queued task already points at this source path.
fn queue_contains_path(queue: &Vec<AssetConversion>, path: &str) -> (r: bool)
    ensures
        r == queue_has_path(task_views(queue@), path@),
{
    let ghost qv = task_views(queue@);
    let n = queue.len();
    let mut t: usize = 0;
    while t < n
        invariant
            0 <= t <= n,
            n == queue@.len(),
            qv == task_views(queue@),
            qv.len() == n,
            forall|j: int| 0 <= j < n ==> qv[j] == queue@[j]@,
            forall|j: int| 0 <= j < t ==> qv[j].path != path@,
        decreases n - t,
    {
        if str_eq(queue[t].path.as_str(), path) {
            proof {
                assert(0 <= t < qv.len() && qv[t as int].path == path@);
            }
            return true;
        }
        t = t + 1;
    }
    false
}

/// Some record of the missing set carries the identifier `g`.
pub open spec fn has_guid(missing: Seq<MetaFileV>, g: Seq<char>) -> bool {
    exists|k: int| 0 <= k < missing.len() && missing[k].guid == g
}

/// At most one record of the missing set carries the identifier `g`.
pub open spec fn guid_unique(missing: Seq<MetaFileV>, g: Seq<char>) -> bool {
    forall|k: int, l: int|
        0 <= k < l < missing.len() ==> !(missing[k].guid == g && missing[l].guid == g)
}

/// The export directory that mirrors a record's directory.
pub open spec fn export_dir_spec(env: EngineEnv, found: MetaFileV) -> Seq<char> {
    join_seq(env.export_root, strip_root_spec(found.directory, env.source_root))
}

/// The action that copies a record's asset into its mirrored export
/// directory.
pub open spec fn copy_action_of(env: EngineEnv, found: MetaFileV) -> ActionV {
    ActionV::CopyIfAbsent {
        from: join_seq(found.directory, found.base_name),
        to: join_seq(export_dir_spec(env, found), found.base_name),
    }
}

/// One migration pass is a pure function of its inputs: scanning equal
/// texts against equal engine states yields equal rewritten texts, equal
/// actions and equal final states. Since every copy action leaves an
/// existing destination file untouched and the rewritten text is written
/// byte-identically, a second run against the same source and export pair
/// produces no file the first run did not.
pub proof fn lemma_scan_idempotent(
    env1: EngineEnv,
    env2: EngineEnv,
    orig1: Seq<char>,
    orig2: Seq<char>,
    st1: ScanState,
    st2: ScanState,
)
    requires
        env1 == env2,
        orig1 == orig2,
        st1 == st2,
    ensures
        scan(env1, orig1, st1, 0) == scan(env2, orig2, st2, 0),
{
}

/// A found missing-set position carries the identifier searched for, and
/// none before it does.
proof fn lemma_find_missing_range(missing: Seq<MetaFileV>, g: Seq<char>, i: int, k: int)
    requires
        find_missing_from(missing, g, i) == Some(k),
    ensures
        i <= k < missing.len(),
        missing[k].guid == g,
    decreases missing.len() - i,
{
    if i < 0 || i >= missing.len() {
    } else if missing[i].guid == g {
    } else {
        lemma_find_missing_range(missing, g, i + 1, k);
    }
}

/// Searching for an identifier that some record carries succeeds.
proof fn lemma_find_missing_some(missing: Seq<MetaFileV>, g: Seq<char>, i: int)
    requires
        0 <= i,
        exists|k: int| i <= k < missing.len() && missing[k].guid == g,
    ensures
        find_missing_from(missing, g, i) is Some,
    decreases missing.len() - i,
{
    let k = choose|k: int| i <= k < missing.len() && missing[k].guid == g;
    if missing[i].guid == g {
    } else {
        assert(k > i);
        lemma_find_missing_some(missing, g, i + 1);
    }
}

/// A scan never adds to the missing set: every record still missing after
/// the scan was missing before it.
pub proof fn lemma_scan_missing_shrinks(
    env: EngineEnv,
    orig: Seq<char>,
    st: ScanState,
    i: int,
    m: MetaFileV,
)
    requires
        scan(env, orig, st, i).missing.contains(m),
    ensures
        st.missing.contains(m),
    decreases orig.len() - i,
{
    if i < 0 || i + 38 > orig.len() {
    } else if occ_at(orig, i) {
        let st1 = scan_step(env, orig, st, i);
        lemma_scan_missing_shrinks(env, orig, st1, i + 1, m);
        let g2 = orig.subrange(i + 6, i + 38);
        if !env.remap.contains_key(g2) {
            match find_missing_from(st.missing, g2, 0) {
                None => {},
                Some(k) => {
                    lemma_find_missing_range(st.missing, g2, 0, k);
                    st.missing.remove_ensures(k);
                    let l = choose|l: int|
                        0 <= l < st1.missing.len() && st1.missing[l] == m;
                    if l < k {
                        assert(st.missing[l] == m);
                    } else {
                        assert(st.missing[l + 1] == m);
                    }
                },
            }
        }
    } else {
        lemma_scan_missing_shrinks(env, orig, st, i + 1, m);
    }
}

/// A scan never drops a queued task: a path once queued stays queued.
pub proof fn lemma_scan_keeps_queue_path(
    env: EngineEnv,
    orig: Seq<char>,
    st: ScanState,
    i: int,
    p: Seq<char>,
)
    requires
        queue_has_path(st.queue, p),
    ensures
        queue_has_path(scan(env, orig, st, i).queue, p),
    decreases orig.len() - i,
{
    if i < 0 || i + 38 > orig.len() {
    } else if occ_at(orig, i) {
        let st1 = scan_step(env, orig, st, i);
        assert(queue_has_path(st1.queue, p)) by {
            let t = choose|t: int| 0 <= t < st.queue.len() && st.queue[t].path == p;
            assert(st1.queue.len() >= st.queue.len());
            assert(st1.queue[t] == st.queue[t]);
        }
        lemma_scan_keeps_queue_path(env, orig, st1, i + 1, p);
    } else {
        lemma_scan_keeps_queue_path(env, orig, st, i + 1, p);
    }
}

/// A scan only appends actions: an action once emitted keeps its place.
pub proof fn lemma_scan_keeps_actions(
    env: EngineEnv,
    orig: Seq<char>,
    st: ScanState,
    i: int,
    a: int,
)
    requires
        0 <= a < st.actions.len(),
    ensures
        scan(env, orig, st, i).actions.len() >= st.actions.len(),
        scan(env, orig, st, i).actions[a] == st.actions[a],
    decreases orig.len() - i,
{
    if i < 0 || i + 38 > orig.len() {
    } else if occ_at(orig, i) {
        let st1 = scan_step(env, orig, st, i);
        assert(st1.actions.len() >= st.actions.len() && st1.actions[a] == st.actions[a]);
        lemma_scan_keeps_actions(env, orig, st1, i + 1, a);
    } else {
        lemma_scan_keeps_actions(env, orig, st, i + 1, a);
    }
}

/// The transitive-closure step of the migration: when the scanned text
/// references, at some marker occurrence, an identifier that is not
/// remapped but names a record of the missing set (uniquely), the scan
/// emits the copy of that record's asset into its mirrored export
/// directory, drops the record from the missing set — so a second reference
/// is a no-op — and, when the asset is convertible, leaves its conversion
/// task in the queue.
pub proof fn lemma_missing_reference_copied(
    env: EngineEnv,
    orig: Seq<char>,
    st: ScanState,
    i: int,
    j: int,
    g: Seq<char>,
)
    requires
        0 <= i <= j,
        occ_at(orig, j),
        j + 38 <= orig.len(),
        g == orig.subrange(j + 6, j + 38),
        !env.remap.contains_key(g),
        has_guid(st.missing, g),
        guid_unique(st.missing, g),
    ensures
        !has_guid(scan(env, orig, st, i).missing, g),
        exists|k: int|
            {
                &&& 0 <= k < st.missing.len()
                &&& st.missing[k].guid == g
                &&& scan(env, orig, st, i).actions.contains(copy_action_of(env, st.missing[k]))
                &&& (is_convertible(env.extensions, st.missing[k].base_name) ==> queue_has_path(
                    scan(env, orig, st, i).queue,
                    join_seq(st.missing[k].directory, st.missing[k].base_name),
                ))
            },
    decreases orig.len() - i,
{
    let stf = scan(env, orig, st, i);
    if occ_at(orig, i) {
        let g2 = orig.subrange(i + 6, i + 38);
        let st1 = scan_step(env, orig, st, i);
        if g2 == g {
            // the reference is resolved at this occurrence
            lemma_find_missing_some(st.missing, g, 0);
            let k = choose|k: int| find_missing_from(st.missing, g, 0) == Some(k);
            lemma_find_missing_range(st.missing, g, 0, k);
            st.missing.remove_ensures(k);
            // the record is gone, and stays gone
            assert(!has_guid(st1.missing, g)) by {
                if has_guid(st1.missing, g) {
                    let l = choose|l: int|
                        0 <= l < st1.missing.len() && st1.missing[l].guid == g;
                    if l < k {
                        assert(st.missing[l].guid == g);
                    } else {
                        assert(st.missing[l + 1].guid == g);
                    }
                }
            }
            assert(!has_guid(stf.missing, g)) by {
                if has_guid(stf.missing, g) {
                    let l = choose|l: int|
                        0 <= l < stf.missing.len() && stf.missing[l].guid == g;
                    lemma_scan_missing_shrinks(env, orig, st1, i + 1, stf.missing[l]);
                    let l1 = choose|l1: int|
                        0 <= l1 < st1.missing.len() && st1.missing[l1] == stf.missing[l];
                    assert(st1.missing[l1].guid == g);
                }
            }
            // the copy action is emitted and kept
            let found = st.missing[k];
            let a = st.actions.len() + 1;
            assert(st1.actions[a as int] == copy_action_of(env, found));
            lemma_scan_keeps_actions(env, orig, st1, i + 1, a as int);
            assert(stf.actions[a as int] == copy_action_of(env, found));
            assert(stf.actions.contains(copy_action_of(env, found)));
            // a convertible asset's task is queued and kept
            if is_convertible(env.extensions, found.base_name) {
                let asset_src = join_seq(found.directory, found.base_name);
                assert(queue_has_path(st1.queue, asset_src)) by {
                    if !queue_has_path(st.queue, asset_src) {
                        assert(st1.queue.last().path == asset_src);
                        assert(st1.queue[st1.queue.len() - 1].path == asset_src);
                    } else {
                        let t = choose|t: int|
                            0 <= t < st.queue.len() && st.queue[t].path == asset_src;
                        assert(st1.queue[t] == st.queue[t]);
                    }
                }
                lemma_scan_keeps_queue_path(env, orig, st1, i + 1, asset_src);
            }
        } else {
            // this occurrence touches some other identifier; the record
            // with `g` survives the step untouched
            assert(i < j) by {
                if i == j {
                    assert(g2 == g);
                }
            }
            let gw = choose|kw: int| 0 <= kw < st.missing.len() && st.missing[kw].guid == g;
            if !env.remap.contains_key(g2) && find_missing_from(st.missing, g2, 0) is Some {
                let k2 = choose|k2: int| find_missing_from(st.missing, g2, 0) == Some(k2);
                lemma_find_missing_range(st.missing, g2, 0, k2);
                st.missing.remove_ensures(k2);
                assert(k2 != gw);
                assert(has_guid(st1.missing, g)) by {
                    if gw < k2 {
                        assert(st1.missing[gw].guid == g);
                    } else {
                        assert(st1.missing[gw - 1] == st.missing[gw]);
                    }
                }
                assert(guid_unique(st1.missing, g)) by {
                    assert forall|k: int, l: int| 0 <= k < l < st1.missing.len() implies !(
                    st1.missing[k].guid == g && st1.missing[l].guid == g) by {
                        let k0: int = if k < k2 {
                            k
                        } else {
                            k + 1
                        };
                        let l0: int = if l < k2 {
                            l
                        } else {
                            l + 1
                        };
                        assert(st1.missing[k] == st.missing[k0]);
                        assert(st1.missing[l] == st.missing[l0]);
                        assert(0 <= k0 < l0 < st.missing.len());
                    }
                }
                lemma_missing_reference_copied(env, orig, st1, i + 1, j, g);
                // lift the witness back to the state before this step
                let k1 = choose|k1: int|
                    {
                        &&& 0 <= k1 < st1.missing.len()
                        &&& st1.missing[k1].guid == g
                        &&& scan(env, orig, st1, i + 1).actions.contains(
                            copy_action_of(env, st1.missing[k1]),
                        )
                        &&& (is_convertible(env.extensions, st1.missing[k1].base_name)
                            ==> queue_has_path(
                            scan(env, orig, st1, i + 1).queue,
                            join_seq(st1.missing[k1].directory, st1.missing[k1].base_name),
                        ))
                    };
                let k0: int = if k1 < k2 {
                    k1
                } else {
                    k1 + 1
                };
                assert(st.missing[k0] == st1.missing[k1]);
            } else {
                assert(st1.missing == st.missing);
                lemma_missing_reference_copied(env, orig, st1, i + 1, j, g);
            }
        }
    } else {
        assert(i < j);
        lemma_missing_reference_copied(env, orig, st, i + 1, j, g);
    }
}

/// Replaces the 32 characters of `buf` at `at` with the characters of `g`.
fn write_chars32(buf: &mut Vec<char>, at: usize, g: &str)
    requires
        g@.len() == 32,
        at + 32 <= old(buf)@.len(),
    ensures
        final(buf)@ == splice32(old(buf)@, at as int, g@),
{
    let len = buf.len();
    let mut j: usize = 0;
    while j < 32
        invariant
            0 <= j <= 32,
            g@.len() == 32,
            at + 32 <= len,
            len == buf@.len(),
            buf@.len() == old(buf)@.len(),
            forall|p: int| 0 <= p < at ==> buf@[p] == old(buf)@[p],
            forall|p: int| 0 <= p < j ==> buf@[at + p] == g@[p],
            forall|p: int| at + j <= p < buf@.len() ==> buf@[p] == old(buf)@[p],
        decreases 32 - j,
    {
        let c = g.get_char(j);
        buf[at + j] = c;
        j = j + 1;
    }
    proof {
        assert(buf@ =~= splice32(old(buf)@, at as int, g@));
    }
}

} // verus!
