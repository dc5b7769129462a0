//! The decisions of snapshot creation and removal: which backends a
//! platform offers, the names and device-mapper table a snapshot is made
//! with, where the source is found inside the mounted snapshot, and which
//! error a run over the backends leaves.

use vstd::prelude::*;
use crate::def::{BuckyBackupError, prefixed};
use crate::text::{chars_of, chars_eq, string_from_chars, extend_chars, spec_is_lower_hex};
use crate::fs_path::{
    components, path_starts_with, spec_components, spec_path_starts_with, parent_path, spec_parent,
    spec_is_absolute,
};
use crate::path_helper::spec_join;
use crate::local_provider::{path_join, spec_path_join};
use crate::snapshot_text::{
    sanitize_component, spec_sanitize_component, spec_with_extension, with_extension,
    spec_infer_snapshot_root, infer_snapshot_root,
};
use crate::command_output::{first_line, spec_first_line};
use crate::task_flow::{str_trim, trim_text};
use crate::url_text::{spec_local_path_of, file_url_of_path, file_url_text};
use crate::event_watch::plan_source_path;
use crate::rpc_params::{spec_u64_text, push_u64_text};

verus! {

/// The platform a snapshot is taken on.
#[derive(Clone, Copy, PartialEq, Eq, Structural)]
pub enum SnapshotPlatform {
    Linux,
    Windows,
    Other,
}

/// A way of taking snapshots.
#[derive(Clone, Copy, PartialEq, Eq, Structural)]
pub enum SnapshotBackendKind {
    LinuxLvm,
    LinuxDmSnapshot,
    WindowsVss,
}

/// The id a backend is recorded under.
pub open spec fn spec_backend_id(k: SnapshotBackendKind) -> Seq<char> {
    match k {
        SnapshotBackendKind::LinuxLvm => "linux:lvm"@,
        SnapshotBackendKind::LinuxDmSnapshot => "linux:dm-snapshot"@,
        SnapshotBackendKind::WindowsVss => "windows:vss"@,
    }
}

/// The human-readable name of a backend.
pub open spec fn spec_backend_description(k: SnapshotBackendKind) -> Seq<char> {
    match k {
        SnapshotBackendKind::LinuxLvm => "Linux LVM snapshots"@,
        SnapshotBackendKind::LinuxDmSnapshot => "Linux device-mapper snapshots"@,
        SnapshotBackendKind::WindowsVss => "Windows VSS snapshots"@,
    }
}

/// The backends a platform offers, in the order they are tried.
pub open spec fn spec_available_backends(p: SnapshotPlatform) -> Seq<SnapshotBackendKind> {
    match p {
        SnapshotPlatform::Linux => seq![SnapshotBackendKind::LinuxLvm, SnapshotBackendKind::LinuxDmSnapshot],
        SnapshotPlatform::Windows => seq![SnapshotBackendKind::WindowsVss],
        SnapshotPlatform::Other => Seq::empty(),
    }
}

impl SnapshotBackendKind {
    /// The id the backend is recorded under.
    pub fn id(&self) -> (s: &'static str)
        ensures
            s@ == spec_backend_id(*self),
    {
        match self {
            SnapshotBackendKind::LinuxLvm => "linux:lvm",
            SnapshotBackendKind::LinuxDmSnapshot => "linux:dm-snapshot",
            SnapshotBackendKind::WindowsVss => "windows:vss",
        }
    }

    /// A human-readable name of the backend (see
    /// `spec_backend_description`).
    pub fn description(&self) -> (s: &'static str)
        ensures
            s@ == spec_backend_description(*self),
    {
        match self {
            SnapshotBackendKind::LinuxLvm => "Linux LVM snapshots",
            SnapshotBackendKind::LinuxDmSnapshot => "Linux device-mapper snapshots",
            SnapshotBackendKind::WindowsVss => "Windows VSS snapshots",
        }
    }

    /// The platform the backend works on.
    pub fn platform(&self) -> (p: SnapshotPlatform)
        ensures
            match *self {
                SnapshotBackendKind::WindowsVss => p is Windows,
                _ => p is Linux,
            },
    {
        match self {
            SnapshotBackendKind::WindowsVss => SnapshotPlatform::Windows,
            _ => SnapshotPlatform::Linux,
        }
    }
}

/// The backends a platform offers, in the order they are tried.
pub fn available_backends(platform: &SnapshotPlatform) -> (r: Vec<SnapshotBackendKind>)
    ensures
        r@ == spec_available_backends(*platform),
{
    let mut v: Vec<SnapshotBackendKind> = Vec::new();
    match platform {
        SnapshotPlatform::Linux => {
            v.push(SnapshotBackendKind::LinuxLvm);
            v.push(SnapshotBackendKind::LinuxDmSnapshot);
            assert(v@ =~= spec_available_backends(*platform));
        },
        SnapshotPlatform::Windows => {
            v.push(SnapshotBackendKind::WindowsVss);
            assert(v@ =~= spec_available_backends(*platform));
        },
        SnapshotPlatform::Other => {
            assert(v@ =~= spec_available_backends(*platform));
        },
    }
    v
}

/// The backend of the platform recorded under `id`.
pub open spec fn spec_backend_by_id(id: Seq<char>, p: SnapshotPlatform) -> Option<SnapshotBackendKind> {
    let avail = spec_available_backends(p);
    if exists|i: int| 0 <= i < avail.len() && spec_backend_id(#[trigger] avail[i]) == id {
        Some(avail[choose|i: int| 0 <= i < avail.len() && spec_backend_id(#[trigger] avail[i]) == id])
    } else {
        None
    }
}

proof fn lemma_backend_ids_distinct(a: SnapshotBackendKind, b: SnapshotBackendKind)
    ensures
        spec_backend_id(a) == spec_backend_id(b) ==> a == b,
{
    reveal_strlit("linux:lvm");
    reveal_strlit("linux:dm-snapshot");
    reveal_strlit("windows:vss");
    assert("linux:lvm"@.len() != "linux:dm-snapshot"@.len());
    assert("linux:lvm"@[0] != "windows:vss"@[0]);
    assert("linux:dm-snapshot"@[0] != "windows:vss"@[0]);
}

/// The backend of the platform recorded under `id` (see
/// `spec_backend_by_id`).
pub fn backend_by_id(id: &str, platform: &SnapshotPlatform) -> (r: Option<SnapshotBackendKind>)
    ensures
        r == spec_backend_by_id(id@, *platform),
{
    let avail = available_backends(platform);
    let ghost s = spec_available_backends(*platform);
    let mut i: usize = 0;
    while i < avail.len()
        invariant
            i <= avail@.len(),
            avail@ == s,
            s == spec_available_backends(*platform),
            forall|k: int| 0 <= k < i ==> spec_backend_id(#[trigger] s[k]) != id@,
        decreases avail.len() - i,
    {
        let k = avail[i];
        let kid = k.id();
        if chars_eq(&chars_of(kid), &chars_of(id)) {
            proof {
                assert(spec_backend_id(s[i as int]) == id@);
                let j = choose|j: int| 0 <= j < s.len() && spec_backend_id(#[trigger] s[j]) == id@;
                lemma_backend_ids_distinct(s[j], s[i as int]);
            }
            return Some(k);
        }
        i = i + 1;
    }
    None
}

/// A backend id made safe for a path component: `:` becomes `_`.
pub open spec fn spec_backend_token(id: Seq<char>) -> Seq<char> {
    id.map_values(|c: char| if c == ':' { '_' } else { c })
}

fn backend_token(id: &str) -> (r: Vec<char>)
    ensures
        r@ == spec_backend_token(id@),
{
    let v = chars_of(id);
    let mut out: Vec<char> = Vec::new();
    let mut i: usize = 0;
    while i < v.len()
        invariant
            i <= v@.len(),
            v@ == id@,
            out@ == spec_backend_token(v@.take(i as int)),
        decreases v.len() - i,
    {
        let c = v[i];
        out.push(if c == ':' { '_' } else { c });
        i = i + 1;
        assert(out@ =~= spec_backend_token(v@.take(i as int)));
    }
    assert(v@.take(v@.len() as int) =~= v@);
    out
}

/// The root a backend tries to mount a snapshot at: below the snapshot
/// workspace, a name made of the plan, the task, the backend and a short
/// random id.
pub open spec fn spec_candidate_root(
    workspace: Seq<char>,
    plan_id: Seq<char>,
    task_id: Seq<char>,
    backend_id: Seq<char>,
    short_id: Seq<char>,
) -> Seq<char> {
    spec_path_join(
        workspace,
        spec_sanitize_component(plan_id) + "_"@ + spec_sanitize_component(task_id) + "_"@
            + spec_backend_token(backend_id) + "_"@ + short_id,
    )
}

/// The root a backend tries to mount a snapshot at (see
/// `spec_candidate_root`).
pub fn candidate_root(
    workspace: &str,
    plan_id: &str,
    task_id: &str,
    backend_id: &str,
    short_id: &str,
) -> (r: String)
    ensures
        r@ == spec_candidate_root(workspace@, plan_id@, task_id@, backend_id@, short_id@),
{
    proof {
        reveal_strlit("_");
    }
    let plan = chars_of(sanitize_component(plan_id).as_str());
    let task = chars_of(sanitize_component(task_id).as_str());
    let token = backend_token(backend_id);
    let short = chars_of(short_id);
    let mut name: Vec<char> = Vec::new();
    extend_chars(&mut name, &plan, 0, plan.len());
    name.push('_');
    extend_chars(&mut name, &task, 0, task.len());
    name.push('_');
    extend_chars(&mut name, &token, 0, token.len());
    name.push('_');
    extend_chars(&mut name, &short, 0, short.len());
    assert(plan@.subrange(0, plan@.len() as int) =~= plan@);
    assert(task@.subrange(0, task@.len() as int) =~= task@);
    assert(token@.subrange(0, token@.len() as int) =~= token@);
    assert(short@.subrange(0, short@.len() as int) =~= short@);
    assert(name@ =~= spec_sanitize_component(plan_id@) + "_"@ + spec_sanitize_component(task_id@)
        + "_"@ + spec_backend_token(backend_id@) + "_"@ + short_id@);
    let n = string_from_chars(&name);
    path_join(workspace, n.as_str())
}

/// A fresh random UUID in its simple form, through `uuid::Uuid::new_v4`
/// and `Uuid::simple`.
///
/// Claims what the `uuid` crate's formatter writes: 32 lower-case
/// hexadecimal digits. Which digits is left open (they are random).
#[verifier::external_body]
fn new_uuid_simple() -> (r: String)
    ensures
        r@.len() == 32,
        forall|i: int| 0 <= i < r@.len() ==> spec_is_lower_hex(#[trigger] r@[i]),
{
    uuid::Uuid::new_v4().simple().to_string()
}

/// A short random id for snapshot names: the first 12 digits of a fresh
/// UUID.
pub fn short_id() -> (r: String)
    ensures
        r@.len() == 12,
        forall|i: int| 0 <= i < r@.len() ==> spec_is_lower_hex(#[trigger] r@[i]),
{
    let u = chars_of(new_uuid_simple().as_str());
    let mut out: Vec<char> = Vec::new();
    extend_chars(&mut out, &u, 0, 12);
    string_from_chars(&out)
}

/// Size of a device-mapper snapshot chunk, in sectors.
pub const DM_SNAPSHOT_CHUNK_SIZE: u64 = 64;

/// The device-mapper table of a snapshot of `origin` whose changes go to
/// `loop_device`: `0 <sectors> snapshot <origin> <loop> P <chunk size>`.
pub open spec fn spec_dm_table(sectors: u64, origin: Seq<char>, loop_device: Seq<char>) -> Seq<char> {
    "0 "@ + spec_u64_text(sectors) + " snapshot "@ + origin + " "@ + loop_device + " P "@
        + spec_u64_text(DM_SNAPSHOT_CHUNK_SIZE)
}

fn push_str(out: &mut Vec<char>, s: &str)
    ensures
        final(out)@ == old(out)@ + s@,
{
    let v = chars_of(s);
    extend_chars(out, &v, 0, v.len());
    assert(v@.subrange(0, v@.len() as int) =~= v@);
}

/// The device-mapper table of a snapshot (see `spec_dm_table`).
pub fn dm_table(sectors: u64, origin: &str, loop_device: &str) -> (r: String)
    ensures
        r@ == spec_dm_table(sectors, origin@, loop_device@),
{
    let mut out: Vec<char> = Vec::new();
    push_str(&mut out, "0 ");
    push_u64_text(&mut out, sectors);
    push_str(&mut out, " snapshot ");
    push_str(&mut out, origin);
    push_str(&mut out, " ");
    push_str(&mut out, loop_device);
    push_str(&mut out, " P ");
    push_u64_text(&mut out, DM_SNAPSHOT_CHUNK_SIZE);
    assert(out@ =~= spec_dm_table(sectors, origin@, loop_device@));
    string_from_chars(&out)
}

/// The device-mapper name of a snapshot and the device it appears as.
pub fn dm_snapshot_names(short_id: &str) -> (r: (String, String))
    ensures
        r.0@ == "bksdm_"@ + short_id@,
        r.1@ == "/dev/mapper/"@ + r.0@,
{
    let name = prefixed("bksdm_", short_id);
    let device = prefixed("/dev/mapper/", name.as_str());
    (name, device)
}

/// The logical volume name of an LVM snapshot and its device path in the
/// volume group.
pub fn lvm_snapshot_names(vg_name: &str, short_id: &str) -> (r: (String, String))
    ensures
        r.0@ == "bksnap_"@ + short_id@,
        r.1@ == "/dev/"@ + vg_name@ + "/"@ + r.0@,
{
    let name = prefixed("bksnap_", short_id);
    let mut out: Vec<char> = Vec::new();
    push_str(&mut out, "/dev/");
    push_str(&mut out, vg_name);
    push_str(&mut out, "/");
    push_str(&mut out, name.as_str());
    (name, string_from_chars(&out))
}

/// The copy-on-write file of a device-mapper snapshot: the mount root with
/// the `cow` extension.
pub fn cow_path_for_root(root: &str) -> (r: String)
    ensures
        r@ == spec_with_extension(root@, "cow"@),
{
    with_extension(root, "cow")
}

/// The size in bytes of a copy-on-write file for `sectors` sectors of 512
/// bytes; refused when it does not fit in 64 bits.
pub fn cow_size_bytes(sectors: u64) -> (r: Result<u64, BuckyBackupError>)
    ensures
        sectors * 512 <= u64::MAX ==> r == Ok::<u64, BuckyBackupError>((sectors * 512) as u64),
        sectors * 512 > u64::MAX ==> (r matches Err(BuckyBackupError::Failed(m)) && m@
            == "cow file size overflow"@),
{
    match sectors.checked_mul(512) {
        Some(b) => Ok(b),
        None => Err(BuckyBackupError::Failed(String::from_str("cow file size overflow"))),
    }
}

/// The loop device `losetup --find --show` printed: its first line,
/// trimmed.
pub fn loop_device_from_output(output: &str) -> (r: Result<String, BuckyBackupError>)
    ensures
        match spec_first_line(output@) {
            Some(l) => r matches Ok(d) && d@ == str_trim(l),
            None => r matches Err(BuckyBackupError::Failed(m)) && m@ == "losetup returned empty output"@,
        },
{
    match first_line(output) {
        Some(l) => Ok(trim_text(l.as_str())),
        None => Err(BuckyBackupError::Failed(String::from_str("losetup returned empty output"))),
    }
}

/// Where the source is found inside a mounted snapshot: the source's path
/// below the mount point, joined to the mount root; the mount root itself
/// when the source is the mount point or does not lie below it.
pub open spec fn spec_snapshot_final_path(
    source: Seq<char>,
    mount_target: Seq<char>,
    mount_root: Seq<char>,
) -> Seq<char> {
    let cs = spec_components(source);
    let ct = spec_components(mount_target);
    if spec_path_starts_with(source, mount_target) && ct.len() < cs.len() {
        spec_path_join(mount_root, spec_join(cs.skip(ct.len() as int), '/'))
    } else {
        mount_root
    }
}

/// Where the source is found inside a mounted snapshot (see
/// `spec_snapshot_final_path`).
pub fn snapshot_final_path(source: &str, mount_target: &str, mount_root: &str) -> (r: String)
    ensures
        r@ == spec_snapshot_final_path(source@, mount_target@, mount_root@),
{
    let (_, cs) = components(source);
    let (_, ct) = components(mount_target);
    let ghost vs = cs@.map_values(|s: Vec<char>| s@);
    let ghost vt = ct@.map_values(|s: Vec<char>| s@);
    assert(vs.len() == cs@.len() && vt.len() == ct@.len());
    if !path_starts_with(source, mount_target) || ct.len() >= cs.len() {
        return String::from_str(mount_root);
    }
    let rest = skip_components(&cs, ct.len());
    assert(rest@.map_values(|s: Vec<char>| s@).len() == rest@.len());
    let rest_text = crate::fs_path::path_text(false, &rest, cs.len() - ct.len());
    proof {
        assert(rest_text@ == Seq::<char>::empty() + spec_join(vs.skip(vt.len() as int), '/')) by {
            assert(vs.skip(vt.len() as int).take((cs.len() - ct.len()) as int) =~= vs.skip(
                vt.len() as int,
            ));
        }
        assert(rest_text@ =~= spec_join(vs.skip(vt.len() as int), '/'));
    }
    path_join(mount_root, rest_text.as_str())
}

fn skip_components(comps: &Vec<Vec<char>>, start: usize) -> (r: Vec<Vec<char>>)
    requires
        start <= comps@.len(),
    ensures
        r@.map_values(|s: Vec<char>| s@) == comps@.map_values(|s: Vec<char>| s@).skip(start as int),
{
    let mut out: Vec<Vec<char>> = Vec::new();
    let mut i: usize = start;
    let ghost all = comps@.map_values(|s: Vec<char>| s@);
    while i < comps.len()
        invariant
            start <= i <= comps@.len(),
            all == comps@.map_values(|s: Vec<char>| s@),
            out@.map_values(|s: Vec<char>| s@) == all.subrange(start as int, i as int),
        decreases comps.len() - i,
    {
        let mut c: Vec<char> = Vec::new();
        extend_chars(&mut c, &comps[i], 0, comps[i].len());
        assert(comps@[i as int]@.subrange(0, comps@[i as int]@.len() as int) =~= comps@[i as int]@);
        let ghost before = out@.map_values(|s: Vec<char>| s@);
        out.push(c);
        assert(out@.map_values(|s: Vec<char>| s@) =~= before.push(all[i as int]));
        i = i + 1;
        assert(all.subrange(start as int, i as int) =~= all.subrange(start as int, i - 1).push(
            all[i - 1],
        ));
    }
    assert(all.subrange(start as int, comps@.len() as int) =~= all.skip(start as int));
    out
}

/// The failures of a run over the snapshot backends: whether any backend
/// was tried, and the error the last one left.
pub struct SnapshotAttempts {
    pub attempted: bool,
    pub last_error: Option<BuckyBackupError>,
}

impl SnapshotAttempts {
    /// No backend tried yet.
    pub fn new() -> (s: Self)
        ensures
            !s.attempted,
            s.last_error is None,
    {
        SnapshotAttempts { attempted: false, last_error: None }
    }

    /// A backend was tried and failed with `err`.
    pub fn record_failure(&mut self, err: BuckyBackupError)
        ensures
            final(self).attempted,
            final(self).last_error == Some(err),
    {
        self.attempted = true;
        self.last_error = Some(err);
    }

    /// The error the run ends with when no backend succeeded: none was
    /// available, or the last failure.
    pub fn final_error(self) -> (e: BuckyBackupError)
        ensures
            !self.attempted ==> (e matches BuckyBackupError::Failed(m) && m@
                == "no snapshot backend available on this platform"@),
            self.attempted && self.last_error is Some ==> Some(e) == self.last_error,
            self.attempted && self.last_error is None ==> (e matches BuckyBackupError::Failed(m) && m@
                == "all snapshot backends failed"@),
    {
        if !self.attempted {
            return BuckyBackupError::Failed(String::from_str("no snapshot backend available on this platform"));
        }
        match self.last_error {
            Some(e) => e,
            None => BuckyBackupError::Failed(String::from_str("all snapshot backends failed")),
        }
    }
}

/// What removing a snapshot at a path does.
pub enum SnapshotRemoval {
    /// No metadata was found: reset the snapshot root the path lies in.
    ResetRoot(String),
    /// No metadata was found and the path is outside the workspace: leave
    /// it.
    Skip,
    /// Let the recorded backend clean up the snapshot at this root.
    Cleanup(SnapshotBackendKind, String),
    /// The recorded backend is not available here.
    Refuse(BuckyBackupError),
}

/// What removing the snapshot at `path` does, given the snapshot root and
/// backend id its metadata was found under, if any.
pub fn plan_snapshot_removal(
    path: &str,
    workspace: &str,
    located: Option<(String, String)>,
    platform: &SnapshotPlatform,
) -> (r: SnapshotRemoval)
    ensures
        match located {
            None => match spec_infer_snapshot_root(path@, workspace@) {
                Some(root) => r matches SnapshotRemoval::ResetRoot(x) && x@ == root,
                None => r is Skip,
            },
            Some((root, id)) => match spec_backend_by_id(id@, *platform) {
                Some(k) => r matches SnapshotRemoval::Cleanup(b, x) && b == k && x@ == root@,
                None => r matches SnapshotRemoval::Refuse(BuckyBackupError::Failed(m)) && m@
                    == "snapshot backend "@ + id@ + " unavailable on current platform"@,
            },
        },
{
    match located {
        None => match infer_snapshot_root(path, workspace) {
            Some(root) => SnapshotRemoval::ResetRoot(root),
            None => SnapshotRemoval::Skip,
        },
        Some((root, id)) => match backend_by_id(id.as_str(), platform) {
            Some(k) => SnapshotRemoval::Cleanup(k, root),
            None => {
                let mut out: Vec<char> = Vec::new();
                push_str(&mut out, "snapshot backend ");
                push_str(&mut out, id.as_str());
                push_str(&mut out, " unavailable on current platform");
                SnapshotRemoval::Refuse(BuckyBackupError::Failed(string_from_chars(&out)))
            },
        },
    }
}

/// What reading the metadata file beside a candidate snapshot root gave.
pub enum MetadataRead {
    /// The file was read and parsed; the snapshot was made by this backend.
    Parsed(String),
    /// The file was read but could not be parsed.
    Malformed,
    /// There is no such file.
    Missing,
    /// The file could not be read.
    Unreadable,
}

/// The next step of the search for the snapshot root a path lies in.
pub enum LocateStep {
    /// The metadata of this root was found.
    Found(String, String),
    /// Look at this parent next.
    Climb(String),
    /// Stop: no snapshot root is found.
    GiveUp,
}

/// The next step of the search for a snapshot root, after reading the
/// metadata beside `current`: found when it parsed; the parent next when it
/// is missing and there is one; otherwise the search stops.
pub fn locate_step(current: &str, read: MetadataRead) -> (r: LocateStep)
    ensures
        match read {
            MetadataRead::Parsed(b) => r matches LocateStep::Found(root, backend) && root@ == current@
                && backend@ == b@,
            MetadataRead::Missing => match spec_parent(current@) {
                Some(p) => r matches LocateStep::Climb(x) && x@ == p,
                None => r is GiveUp,
            },
            _ => r is GiveUp,
        },
{
    match read {
        MetadataRead::Parsed(b) => LocateStep::Found(String::from_str(current), b),
        MetadataRead::Missing => match parent_path(current) {
            Some(p) => LocateStep::Climb(p),
            None => LocateStep::GiveUp,
        },
        _ => LocateStep::GiveUp,
    }
}

/// The path a plan's snapshot is taken of: the local path of its source
/// (see `plan_source_path`); refused when the source names none.
pub fn snapshot_source_path(plan_id: &str, source_url: &str, cwd: Option<&str>) -> (r: Result<
    String,
    BuckyBackupError,
>)
    ensures
        match spec_local_path_of(source_url@) {
            Err(_) => r matches Err(BuckyBackupError::Failed(m)) && m@ == "plan "@ + plan_id@
                + " uses unsupported source path for snapshot"@,
            Ok(raw) => r matches Ok(p) && p@ == if spec_is_absolute(raw) || cwd is None {
                raw
            } else {
                spec_path_join(cwd->0@, raw)
            },
        },
{
    match plan_source_path(source_url, cwd) {
        Some(p) => Ok(p),
        None => {
            let mut out: Vec<char> = Vec::new();
            push_str(&mut out, "plan ");
            push_str(&mut out, plan_id);
            push_str(&mut out, " uses unsupported source path for snapshot");
            Err(BuckyBackupError::Failed(string_from_chars(&out)))
        },
    }
}

/// The `file:` URL a task reads its snapshot through; refused for a path
/// that is not absolute.
pub fn snapshot_url(path: &str) -> (r: Result<String, BuckyBackupError>)
    ensures
        spec_is_absolute(path@) ==> (r matches Ok(u) && u@ == file_url_text(path@)),
        !spec_is_absolute(path@) ==> (r matches Err(BuckyBackupError::Failed(m)) && m@
            == "failed to convert snapshot path "@ + path@ + " to url"@),
{
    match file_url_of_path(path) {
        Some(u) => Ok(u),
        None => {
            let mut out: Vec<char> = Vec::new();
            push_str(&mut out, "failed to convert snapshot path ");
            push_str(&mut out, path);
            push_str(&mut out, " to url");
            Err(BuckyBackupError::Failed(string_from_chars(&out)))
        },
    }
}

} // verus!
