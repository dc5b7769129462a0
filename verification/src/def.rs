//! Backup items, checkpoints and their persisted state encodings.

use vstd::prelude::*;
use crate::text::{chars_of, chars_eq};
use crate::json::JsonValue;

verus! {

/// Errors of the backup library.
pub enum BuckyBackupError {
    Internal(String),
    AlreadyDone(String),
    TryLater(String),
    NeedProcess(String),
    Failed(String),
    NotFound(String),
}

pub type BackupResult<T> = Result<T, BuckyBackupError>;

/// The human-readable text of an error.
pub open spec fn spec_error_message(e: BuckyBackupError) -> Seq<char> {
    match e {
        BuckyBackupError::Internal(m) => "Internal error: "@ + m@,
        BuckyBackupError::AlreadyDone(m) => "AlreadyDone: "@ + m@,
        BuckyBackupError::TryLater(m) => "TryLater: "@ + m@,
        BuckyBackupError::NeedProcess(m) => "NeedProcess: "@ + m@,
        BuckyBackupError::Failed(m) => "Failed: "@ + m@,
        BuckyBackupError::NotFound(m) => "NotFound: "@ + m@,
    }
}

/// A string made of a literal prefix followed by `tail`.
pub fn prefixed(prefix: &str, tail: &str) -> (s: String)
    ensures
        s@ == prefix@ + tail@,
{
    let mut s = String::from_str(prefix);
    s.append(tail);
    s
}

impl BuckyBackupError {
    /// The human-readable text of the error (what `Display` prints).
    pub fn to_message(&self) -> (s: String)
        ensures
            s@ == spec_error_message(*self),
    {
        match self {
            BuckyBackupError::Internal(m) => prefixed("Internal error: ", m.as_str()),
            BuckyBackupError::AlreadyDone(m) => prefixed("AlreadyDone: ", m.as_str()),
            BuckyBackupError::TryLater(m) => prefixed("TryLater: ", m.as_str()),
            BuckyBackupError::NeedProcess(m) => prefixed("NeedProcess: ", m.as_str()),
            BuckyBackupError::Failed(m) => prefixed("Failed: ", m.as_str()),
            BuckyBackupError::NotFound(m) => prefixed("NotFound: ", m.as_str()),
        }
    }
}

/// Whether `s` starts with `prefix`.
pub open spec fn spec_starts_with(s: Seq<char>, prefix: Seq<char>) -> bool {
    prefix.len() <= s.len() && s.subrange(0, prefix.len() as int) == prefix
}

/// Whether `s` starts with the characters of `prefix` (`str::starts_with`).
pub fn starts_with_chars(s: &[char], prefix: &[char]) -> (b: bool)
    ensures
        b == spec_starts_with(s@, prefix@),
{
    if prefix.len() > s.len() {
        return false;
    }
    let mut i: usize = 0;
    while i < prefix.len()
        invariant
            prefix@.len() <= s@.len(),
            i <= prefix@.len(),
            forall|k: int| 0 <= k < i ==> s@[k] == prefix@[k],
        decreases prefix.len() - i,
    {
        if s[i] != prefix[i] {
            assert(s@.subrange(0, prefix@.len() as int)[i as int] != prefix@[i as int]);
            return false;
        }
        i = i + 1;
    }
    assert(s@.subrange(0, prefix@.len() as int) =~= prefix@);
    true
}

/// State of one backup item.
pub enum BackupItemState {
    New,
    Done,
    Failed(String),
}

/// Abstract value of a `BackupItemState`.
pub enum ItemStateView {
    New,
    Done,
    Failed(Seq<char>),
}

impl View for BackupItemState {
    type V = ItemStateView;

    open spec fn view(&self) -> ItemStateView {
        match self {
            BackupItemState::New => ItemStateView::New,
            BackupItemState::Done => ItemStateView::Done,
            BackupItemState::Failed(m) => ItemStateView::Failed(m@),
        }
    }
}

/// The text under which an item state is stored.
pub open spec fn spec_item_state_text(s: ItemStateView) -> Seq<char> {
    match s {
        ItemStateView::New => "NEW"@,
        ItemStateView::Done => "DONE"@,
        ItemStateView::Failed(m) => "FAILED:"@ + m,
    }
}

/// The item state read back from its stored text: unknown texts that start
/// with `FAILED:` keep the whole text as the failure message, other unknown
/// texts read as `New`.
pub open spec fn spec_item_state_from_text(t: Seq<char>) -> ItemStateView {
    if t == "NEW"@ {
        ItemStateView::New
    } else if t == "DONE"@ {
        ItemStateView::Done
    } else if spec_starts_with(t, "FAILED:"@) {
        ItemStateView::Failed(t)
    } else {
        ItemStateView::New
    }
}

impl BackupItemState {
    /// The stored text of the state (see `spec_item_state_text`).
    pub fn to_sql_text(&self) -> (s: String)
        ensures
            s@ == spec_item_state_text(self@),
    {
        match self {
            BackupItemState::New => String::from_str("NEW"),
            BackupItemState::Done => String::from_str("DONE"),
            BackupItemState::Failed(m) => prefixed("FAILED:", m.as_str()),
        }
    }

    /// The state read back from its stored text (see `spec_item_state_from_text`).
    pub fn from_sql_text(t: &str) -> (s: BackupItemState)
        ensures
            s@ == spec_item_state_from_text(t@),
    {
        let v = chars_of(t);
        let new_c = chars_of("NEW");
        let done_c = chars_of("DONE");
        let failed_c = chars_of("FAILED:");
        if chars_eq(&v, &new_c) {
            BackupItemState::New
        } else if chars_eq(&v, &done_c) {
            BackupItemState::Done
        } else if starts_with_chars(&v, &failed_c) {
            BackupItemState::Failed(String::from_str(t))
        } else {
            BackupItemState::New
        }
    }
}

/// State of a checkpoint.
pub enum CheckPointState {
    New,
    Prepared,
    WaitTrans,
    Working,
    Done,
    Failed(String),
}

/// Abstract value of a `CheckPointState`.
pub enum CheckPointStateView {
    New,
    Prepared,
    WaitTrans,
    Working,
    Done,
    Failed(Seq<char>),
}

impl View for CheckPointState {
    type V = CheckPointStateView;

    open spec fn view(&self) -> CheckPointStateView {
        match self {
            CheckPointState::New => CheckPointStateView::New,
            CheckPointState::Prepared => CheckPointStateView::Prepared,
            CheckPointState::WaitTrans => CheckPointStateView::WaitTrans,
            CheckPointState::Working => CheckPointStateView::Working,
            CheckPointState::Done => CheckPointStateView::Done,
            CheckPointState::Failed(m) => CheckPointStateView::Failed(m@),
        }
    }
}

/// Whether a checkpoint in this state still has work to do.
pub open spec fn spec_need_working(s: CheckPointStateView) -> bool {
    !(s is Done || s is Failed)
}

/// The text under which a checkpoint state is stored.
pub open spec fn spec_checkpoint_state_text(s: CheckPointStateView) -> Seq<char> {
    match s {
        CheckPointStateView::New => "NEW"@,
        CheckPointStateView::Prepared => "PREPARED"@,
        CheckPointStateView::WaitTrans => "WAIT_TRANS"@,
        CheckPointStateView::Working => "WORKING"@,
        CheckPointStateView::Done => "DONE"@,
        CheckPointStateView::Failed(m) => "FAILED:"@ + m,
    }
}

/// The checkpoint state read back from its stored text; every unknown text
/// reads as a failure whose message is the whole text.
pub open spec fn spec_checkpoint_state_from_text(t: Seq<char>) -> CheckPointStateView {
    if t == "NEW"@ {
        CheckPointStateView::New
    } else if t == "PREPARED"@ {
        CheckPointStateView::Prepared
    } else if t == "WAIT_TRANS"@ {
        CheckPointStateView::WaitTrans
    } else if t == "WORKING"@ {
        CheckPointStateView::Working
    } else if t == "DONE"@ {
        CheckPointStateView::Done
    } else {
        CheckPointStateView::Failed(t)
    }
}

impl CheckPointState {
    /// Whether the checkpoint still has work to do: every state but `Done`
    /// and `Failed`.
    pub fn need_working(&self) -> (b: bool)
        ensures
            b == spec_need_working(self@),
    {
        match self {
            CheckPointState::Done => false,
            CheckPointState::Failed(_) => false,
            _ => true,
        }
    }

    /// The stored text of the state (see `spec_checkpoint_state_text`).
    pub fn to_sql_text(&self) -> (s: String)
        ensures
            s@ == spec_checkpoint_state_text(self@),
    {
        match self {
            CheckPointState::New => String::from_str("NEW"),
            CheckPointState::Prepared => String::from_str("PREPARED"),
            CheckPointState::WaitTrans => String::from_str("WAIT_TRANS"),
            CheckPointState::Working => String::from_str("WORKING"),
            CheckPointState::Done => String::from_str("DONE"),
            CheckPointState::Failed(m) => prefixed("FAILED:", m.as_str()),
        }
    }

    /// The state read back from its stored text (see
    /// `spec_checkpoint_state_from_text`).
    pub fn from_sql_text(t: &str) -> (s: CheckPointState)
        ensures
            s@ == spec_checkpoint_state_from_text(t@),
    {
        let v = chars_of(t);
        if chars_eq(&v, &chars_of("NEW")) {
            CheckPointState::New
        } else if chars_eq(&v, &chars_of("PREPARED")) {
            CheckPointState::Prepared
        } else if chars_eq(&v, &chars_of("WAIT_TRANS")) {
            CheckPointState::WaitTrans
        } else if chars_eq(&v, &chars_of("WORKING")) {
            CheckPointState::Working
        } else if chars_eq(&v, &chars_of("DONE")) {
            CheckPointState::Done
        } else {
            CheckPointState::Failed(String::from_str(t))
        }
    }
}

/// Reading back the stored text of an item state gives the state again,
/// except that a failure comes back with the `FAILED:` prefix inside its
/// message.
pub proof fn law_item_state_text_roundtrip(s: ItemStateView)
    ensures
        !(s is Failed) ==> spec_item_state_from_text(spec_item_state_text(s)) == s,
        s matches ItemStateView::Failed(m) ==> spec_item_state_from_text(spec_item_state_text(s))
            == ItemStateView::Failed("FAILED:"@ + m),
{
    reveal_strlit("NEW");
    reveal_strlit("DONE");
    reveal_strlit("FAILED:");
    assert("NEW"@.len() == 3 && "DONE"@.len() == 4 && "FAILED:"@.len() == 7);
    assert("DONE"@[0] == 'D' && "NEW"@[0] == 'N' && "FAILED:"@[0] == 'F');
    assert(!spec_starts_with("NEW"@, "FAILED:"@));
    assert(!spec_starts_with("DONE"@, "FAILED:"@));
    if let ItemStateView::Failed(m) = s {
        let t = "FAILED:"@ + m;
        assert(t[0] == 'F');
        assert(t.subrange(0, 7) =~= "FAILED:"@);
    }
}

/// Reading back the stored text of a checkpoint state gives the state
/// again, except that a failure comes back with the `FAILED:` prefix inside
/// its message.
pub proof fn law_checkpoint_state_text_roundtrip(s: CheckPointStateView)
    ensures
        !(s is Failed) ==> spec_checkpoint_state_from_text(spec_checkpoint_state_text(s)) == s,
        s matches CheckPointStateView::Failed(m) ==> spec_checkpoint_state_from_text(
            spec_checkpoint_state_text(s),
        ) == CheckPointStateView::Failed("FAILED:"@ + m),
{
    reveal_strlit("NEW");
    reveal_strlit("PREPARED");
    reveal_strlit("WAIT_TRANS");
    reveal_strlit("WORKING");
    reveal_strlit("DONE");
    reveal_strlit("FAILED:");
    assert("NEW"@.len() == 3 && "DONE"@.len() == 4 && "FAILED:"@.len() == 7);
    assert("PREPARED"@.len() == 8 && "WAIT_TRANS"@.len() == 10 && "WORKING"@.len() == 7);
    assert("WORKING"@[0] == 'W' && "FAILED:"@[0] == 'F' && "NEW"@[0] == 'N');
    assert("DONE"@[0] == 'D' && "PREPARED"@[0] == 'P' && "WAIT_TRANS"@[0] == 'W');
    assert("WAIT_TRANS"@[1] == 'A' && "WORKING"@[1] == 'O');
    if let CheckPointStateView::Failed(m) = s {
        let t = "FAILED:"@ + m;
        assert(t[0] == 'F');
        assert(t[1] == 'A');
    }
}

/// Chunk-to-chunk checkpoint type.
pub const CHECKPOINT_TYPE_CHUNK: &'static str = "c2c";

/// One item to back up: a chunk of a source file.
pub struct BackupChunkItem {
    /// Identifies the item within its source (usually the relative path).
    pub item_id: String,
    /// Text form of the chunk id.
    pub chunk_id: String,
    /// Text form of the chunk id before encryption, if any.
    pub local_chunk_id: Option<String>,
    pub state: BackupItemState,
    pub size: u64,
    pub last_update_time: u64,
    pub offset: u64,
}

/// Sum of the sizes of the items.
pub open spec fn spec_items_total_size(items: Seq<BackupChunkItem>) -> int
    decreases items.len(),
{
    if items.len() == 0 {
        0
    } else {
        spec_items_total_size(items.drop_last()) + items.last().size
    }
}

/// A checkpoint as the backup service keeps it.
pub struct BackupCheckpoint {
    pub checkpoint_type: String,
    pub checkpoint_name: String,
    pub prev_checkpoint_id: Option<String>,
    pub state: CheckPointState,
    pub extra_info: String,
    pub create_time: u64,
    pub last_update_time: u64,
    pub item_list_id: String,
    pub item_count: u64,
    pub total_size: u64,
}

/// Sums the item sizes.
pub fn items_total_size(items: &Vec<BackupChunkItem>) -> (total: u64)
    requires
        spec_items_total_size(items@) <= u64::MAX,
    ensures
        total == spec_items_total_size(items@),
{
    let mut total: u64 = 0;
    let mut i: usize = 0;
    while i < items.len()
        invariant
            i <= items@.len(),
            spec_items_total_size(items@) <= u64::MAX,
            total == spec_items_total_size(items@.take(i as int)),
        decreases items.len() - i,
    {
        proof {
            lemma_total_size_prefix_le(items@, i as int + 1);
            assert(items@.take(i + 1).drop_last() =~= items@.take(i as int));
        }
        total = total + items[i].size;
        i = i + 1;
    }
    assert(items@.take(items@.len() as int) =~= items@);
    total
}

/// The total size of a prefix never exceeds the total size.
pub(crate) proof fn lemma_total_size_prefix_le(items: Seq<BackupChunkItem>, k: int)
    requires
        0 <= k <= items.len(),
    ensures
        spec_items_total_size(items.take(k)) <= spec_items_total_size(items),
    decreases items.len(),
{
    if k < items.len() {
        assert(items.drop_last().take(k) =~= items.take(k));
        lemma_total_size_prefix_le(items.drop_last(), k);
    } else {
        assert(items.take(k) =~= items);
    }
}

impl BackupCheckpoint {
    /// A new checkpoint in state `New`, created now; with an item list it
    /// counts the items and sums their sizes.
    pub fn new(
        checkpoint_type: String,
        checkpoint_name: String,
        prev_checkpoint_id: Option<String>,
        items: Option<&Vec<BackupChunkItem>>,
    ) -> (cp: Self)
        requires
            items matches Some(v) ==> spec_items_total_size(v@) <= u64::MAX,
        ensures
            cp.checkpoint_type == checkpoint_type,
            cp.checkpoint_name == checkpoint_name,
            cp.prev_checkpoint_id == prev_checkpoint_id,
            cp.state@ == CheckPointStateView::New,
            cp.extra_info@ == Seq::<char>::empty(),
            cp.item_list_id@ == Seq::<char>::empty(),
            cp.create_time == cp.last_update_time,
            match items {
                Some(v) => cp.item_count == v@.len() && cp.total_size == spec_items_total_size(v@),
                None => cp.item_count == 0 && cp.total_size == 0,
            },
    {
        let now = crate::clock::now_unix_secs();
        let (item_count, total_size) = match items {
            Some(v) => (v.len() as u64, items_total_size(v)),
            None => (0u64, 0u64),
        };
        BackupCheckpoint {
            checkpoint_type,
            checkpoint_name,
            prev_checkpoint_id,
            state: CheckPointState::New,
            extra_info: String::new(),
            create_time: now,
            last_update_time: now,
            item_list_id: String::new(),
            item_count,
            total_size,
        }
    }
}

/// What a remote target reports of the items of a checkpoint.
pub enum RemoteBackupCheckPointItemStatus {
    NotSupport,
    WaitItemList,
    /// Ids of the items that are not complete yet.
    NotComplete(Vec<String>),
    /// Ids of the items that are complete.
    Complete(Vec<String>),
}

/// A checkpoint together with what only the local side keeps of it.
pub struct LocalBackupCheckpoint {
    pub checkpoint: BackupCheckpoint,
    pub checkpoint_id: String,
    pub owner_plan_id: String,
    pub crpyto_config: String,
    pub crypto_key: String,
    pub org_item_list_id: String,
}

impl LocalBackupCheckpoint {
    /// Wraps a checkpoint with its id and owner plan; the crypto settings
    /// and the original item list id start empty.
    pub fn new(checkpoint: BackupCheckpoint, checkpoint_id: String, owner_plan_id: String) -> (r:
        Self)
        ensures
            r.checkpoint == checkpoint,
            r.checkpoint_id == checkpoint_id,
            r.owner_plan_id == owner_plan_id,
            r.crpyto_config@ == Seq::<char>::empty(),
            r.crypto_key@ == Seq::<char>::empty(),
            r.org_item_list_id@ == Seq::<char>::empty(),
    {
        LocalBackupCheckpoint {
            checkpoint,
            checkpoint_id,
            owner_plan_id,
            crpyto_config: String::new(),
            crypto_key: String::new(),
            org_item_list_id: String::new(),
        }
    }
}

/// A difference object: its kind and its encoded data.
pub struct DiffObject {
    pub diff_type: String,
    pub diff_data: Vec<u8>,
}

/// Settings of a backup.
pub struct BackupConfig {
    pub crypto_config: String,
}

/// Where and how to restore.
pub struct RestoreConfig {
    pub restore_location_url: String,
    /// When true, the restore location ends up holding only restored files.
    pub is_clean_restore: bool,
    /// Extra parameters.
    pub params: Option<JsonValue>,
}

/// Ability of a source that reads local files.
pub const ABILITY_LOCAL: &'static str = "local";
/// Ability of a provider that handles chunk lists.
pub const ABILITY_CHUNK_LIST: &'static str = "chunk_list";

/// Description of a kind of backup source.
pub struct BackupSourceProviderDesc {
    pub name: String,
    pub desc: String,
    pub type_id: String,
    pub abilities: Vec<String>,
}

/// Description of a kind of backup target.
pub struct BackupTargetProviderDesc {
    pub name: String,
    pub desc: String,
    pub type_id: String,
    pub abilities: Vec<String>,
}

} // verus!
