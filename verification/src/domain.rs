//! The vocabulary of the vault: sessions, trees, filters, plans and results.
//! Each type that holds text has a view of mathematical values, which the
//! contracts speak of.

use crate::ordered::TextMap;
use crate::text::{copy_texts, same, same_ascii_case, same_ignoring_ascii_case};
use vstd::prelude::*;
use vstd::string::*;

verus! {

broadcast use vstd::group_vstd_default;

/// The copy of a list whose elements keep their view when they are cloned.
pub fn copy_list<T: Clone + DeepView>(v: &Vec<T>) -> (r: Vec<T>)
    requires
        forall|a: T, b: T| #[trigger] cloned(a, b) ==> a.deep_view() == b.deep_view(),
    ensures
        r.deep_view() == v.deep_view(),
{
    let r = v.clone();
    assert(r.deep_view() =~= v.deep_view());
    r
}

/// The copy of an optional text.
pub fn copy_option(v: &Option<String>) -> (r: Option<String>)
    ensures
        r.deep_view() == v.deep_view(),
{
    match v {
        Some(text) => Some(text.clone()),
        None => None,
    }
}

/// The view of a result.
pub open spec fn result_view<T: DeepView, E: DeepView>(r: Result<T, E>) -> Result<T::V, E::V> {
    match r {
        Ok(value) => Ok(value.deep_view()),
        Err(error) => Err(error.deep_view()),
    }
}

/// Why a request could not be served.
#[derive(Debug, PartialEq, Eq)]
pub enum VaultError {
    Unavailable(String),
    Protocol(String),
    Command(String),
    Storage(String),
    Blocked(String),
    StalePreview,
    ConfirmationMismatch,
}

#[verifier::ext_equal]
pub enum VaultErrorView {
    Unavailable(Seq<char>),
    Protocol(Seq<char>),
    Command(Seq<char>),
    Storage(Seq<char>),
    Blocked(Seq<char>),
    StalePreview,
    ConfirmationMismatch,
}

impl DeepView for VaultError {
    type V = VaultErrorView;

    open spec fn deep_view(&self) -> VaultErrorView {
        match self {
            VaultError::Unavailable(m) => VaultErrorView::Unavailable(m@),
            VaultError::Protocol(m) => VaultErrorView::Protocol(m@),
            VaultError::Command(m) => VaultErrorView::Command(m@),
            VaultError::Storage(m) => VaultErrorView::Storage(m@),
            VaultError::Blocked(m) => VaultErrorView::Blocked(m@),
            VaultError::StalePreview => VaultErrorView::StalePreview,
            VaultError::ConfirmationMismatch => VaultErrorView::ConfirmationMismatch,
        }
    }
}

/// The message that an error shows.
pub open spec fn error_message(e: VaultErrorView) -> Seq<char> {
    match e {
        VaultErrorView::Unavailable(m) => "app-server unavailable: "@ + m,
        VaultErrorView::Protocol(m) => "app-server protocol error: "@ + m,
        VaultErrorView::Command(m) => "Codex CLI command failed: "@ + m,
        VaultErrorView::Storage(m) => "local operation record unavailable: "@ + m,
        VaultErrorView::Blocked(m) => "operation blocked: "@ + m,
        VaultErrorView::StalePreview => "preview is stale; rescan and preview again"@,
        VaultErrorView::ConfirmationMismatch =>
            "confirmation does not match the previewed delete count"@,
    }
}

impl VaultError {
    /// The text that is shown for the error.
    pub fn message(&self) -> (r: String)
        ensures
            r@ == error_message(self.deep_view()),
    {
        match self {
            VaultError::Unavailable(m) => "app-server unavailable: ".to_owned().concat(m.as_str()),
            VaultError::Protocol(m) => "app-server protocol error: ".to_owned().concat(m.as_str()),
            VaultError::Command(m) => "Codex CLI command failed: ".to_owned().concat(m.as_str()),
            VaultError::Storage(m) => "local operation record unavailable: ".to_owned().concat(
                m.as_str(),
            ),
            VaultError::Blocked(m) => "operation blocked: ".to_owned().concat(m.as_str()),
            VaultError::StalePreview => "preview is stale; rescan and preview again".to_owned(),
            VaultError::ConfirmationMismatch =>
                "confirmation does not match the previewed delete count".to_owned(),
        }
    }
}

impl Clone for VaultError {
    fn clone(&self) -> (r: Self)
        ensures
            r.deep_view() == self.deep_view(),
    {
        match self {
            VaultError::Unavailable(m) => VaultError::Unavailable(m.clone()),
            VaultError::Protocol(m) => VaultError::Protocol(m.clone()),
            VaultError::Command(m) => VaultError::Command(m.clone()),
            VaultError::Storage(m) => VaultError::Storage(m.clone()),
            VaultError::Blocked(m) => VaultError::Blocked(m.clone()),
            VaultError::StalePreview => VaultError::StalePreview,
            VaultError::ConfirmationMismatch => VaultError::ConfirmationMismatch,
        }
    }
}

/// The languages of the interface.
#[derive(Debug, Clone, Copy, PartialEq, Eq, Structural)]
pub enum Language {
    En,
    ZhCn,
}

impl DeepView for Language {
    type V = Language;

    open spec fn deep_view(&self) -> Language {
        *self
    }
}

/// The code of a language.
pub open spec fn language_code(language: Language) -> Seq<char> {
    match language {
        Language::En => "en"@,
        Language::ZhCn => "zh-CN"@,
    }
}

/// The language that a code names: English for `en` in any case, else Chinese.
pub open spec fn language_of(value: Seq<char>) -> Language {
    if same_ignoring_ascii_case(value, "en"@) {
        Language::En
    } else {
        Language::ZhCn
    }
}

impl Language {
    pub fn code(self) -> (r: &'static str)
        ensures
            r@ == language_code(self),
    {
        match self {
            Language::En => "en",
            Language::ZhCn => "zh-CN",
        }
    }

    pub fn parse(value: &str) -> (r: Self)
        ensures
            r == language_of(value@),
    {
        if same_ascii_case(value, "en") {
            Language::En
        } else {
            Language::ZhCn
        }
    }
}

/// The code of a language reads back as the language.
pub proof fn law_language_round_trip(language: Language)
    ensures
        language_of(language_code(language)) == language,
{
    reveal_strlit("en");
    reveal_strlit("zh-CN");
}

/// Until when the last activity of a tree may lie.
#[derive(Debug, Clone, Copy, PartialEq, Eq, Structural)]
pub enum Cutoff {
    All,
    RollingDays(u32),
    Absolute(i64),
}

impl DeepView for Cutoff {
    type V = Cutoff;

    open spec fn deep_view(&self) -> Cutoff {
        *self
    }
}

impl Default for Cutoff {
    fn default() -> (r: Self)
        ensures
            r == Cutoff::RollingDays(30),
    {
        Cutoff::RollingDays(30)
    }
}

/// An integer held between the smallest and the largest 64-bit number.
pub open spec fn saturated(n: int) -> int {
    if n < i64::MIN {
        i64::MIN as int
    } else if n > i64::MAX {
        i64::MAX as int
    } else {
        n
    }
}

/// The last second, since the epoch, that a cutoff admits.
pub open spec fn cutoff_second(cutoff: Cutoff, now: int) -> int {
    match cutoff {
        Cutoff::All => i64::MAX as int,
        Cutoff::RollingDays(days) => saturated(now - days * 86_400),
        Cutoff::Absolute(value) => value as int,
    }
}

impl Cutoff {
    pub fn epoch_seconds(&self, now: i64) -> (r: i64)
        ensures
            r == cutoff_second(*self, now as int),
    {
        match self {
            Cutoff::All => i64::MAX,
            Cutoff::RollingDays(days) => {
                let span: i64 = (*days as i64) * 86_400;
                if now < i64::MIN + span {
                    i64::MIN
                } else {
                    now - span
                }
            },
            Cutoff::Absolute(value) => *value,
        }
    }
}

/// What the interface remembers between runs.
#[derive(Debug, PartialEq, Eq)]
pub struct Preferences {
    pub language: Language,
    pub cutoff: Cutoff,
    pub project: Option<String>,
    pub archived: Option<bool>,
}

#[verifier::ext_equal]
pub struct PreferencesView {
    pub language: Language,
    pub cutoff: Cutoff,
    pub project: Option<Seq<char>>,
    pub archived: Option<bool>,
}

impl DeepView for Preferences {
    type V = PreferencesView;

    open spec fn deep_view(&self) -> PreferencesView {
        PreferencesView {
            language: self.language,
            cutoff: self.cutoff,
            project: self.project.deep_view(),
            archived: self.archived,
        }
    }
}

/// The preferences of a first run.
pub open spec fn default_preferences() -> PreferencesView {
    PreferencesView {
        language: Language::ZhCn,
        cutoff: Cutoff::RollingDays(30),
        project: None,
        archived: None,
    }
}

impl Default for Preferences {
    fn default() -> (r: Self)
        ensures
            r.deep_view() == default_preferences(),
    {
        Preferences {
            language: Language::ZhCn,
            cutoff: Cutoff::RollingDays(30),
            project: None,
            archived: None,
        }
    }
}

impl Clone for Preferences {
    fn clone(&self) -> (r: Self)
        ensures
            r.deep_view() == self.deep_view(),
    {
        Preferences {
            language: self.language,
            cutoff: self.cutoff,
            project: copy_option(&self.project),
            archived: self.archived,
        }
    }
}

/// Where a session came from.
#[derive(Debug, PartialEq, Eq)]
pub enum SessionSource {
    Cli,
    Vscode,
    Exec,
    AppServer,
    Descendant,
    Other(String),
    Unknown,
}

#[verifier::ext_equal]
pub enum SessionSourceView {
    Cli,
    Vscode,
    Exec,
    AppServer,
    Descendant,
    Other(Seq<char>),
    Unknown,
}

impl DeepView for SessionSource {
    type V = SessionSourceView;

    open spec fn deep_view(&self) -> SessionSourceView {
        match self {
            SessionSource::Cli => SessionSourceView::Cli,
            SessionSource::Vscode => SessionSourceView::Vscode,
            SessionSource::Exec => SessionSourceView::Exec,
            SessionSource::AppServer => SessionSourceView::AppServer,
            SessionSource::Descendant => SessionSourceView::Descendant,
            SessionSource::Other(name) => SessionSourceView::Other(name@),
            SessionSource::Unknown => SessionSourceView::Unknown,
        }
    }
}

/// Sessions of these sources stand at the root of a tree.
pub open spec fn interactive(source: SessionSourceView) -> bool {
    source is Cli || source is Vscode
}

/// Sources whose handling is settled.
pub open spec fn known_source(source: SessionSourceView) -> bool {
    !(source is Other) && !(source is Unknown)
}

impl SessionSource {
    pub fn is_interactive_root(&self) -> (r: bool)
        ensures
            r == interactive(self.deep_view()),
    {
        match self {
            SessionSource::Cli => true,
            SessionSource::Vscode => true,
            _ => false,
        }
    }

    pub fn is_known(&self) -> (r: bool)
        ensures
            r == known_source(self.deep_view()),
    {
        match self {
            SessionSource::Other(_) => false,
            SessionSource::Unknown => false,
            _ => true,
        }
    }
}

impl Clone for SessionSource {
    fn clone(&self) -> (r: Self)
        ensures
            r.deep_view() == self.deep_view(),
    {
        match self {
            SessionSource::Cli => SessionSource::Cli,
            SessionSource::Vscode => SessionSource::Vscode,
            SessionSource::Exec => SessionSource::Exec,
            SessionSource::AppServer => SessionSource::AppServer,
            SessionSource::Descendant => SessionSource::Descendant,
            SessionSource::Other(name) => SessionSource::Other(name.clone()),
            SessionSource::Unknown => SessionSource::Unknown,
        }
    }
}

/// What the server says of a session at run time.
#[derive(Debug, PartialEq, Eq)]
pub enum RuntimeStatus {
    NotLoaded,
    Idle,
    SystemError,
    Active(Vec<String>),
    Unknown(String),
}

#[verifier::ext_equal]
pub enum RuntimeStatusView {
    NotLoaded,
    Idle,
    SystemError,
    Active(Seq<Seq<char>>),
    Unknown(Seq<char>),
}

impl DeepView for RuntimeStatus {
    type V = RuntimeStatusView;

    open spec fn deep_view(&self) -> RuntimeStatusView {
        match self {
            RuntimeStatus::NotLoaded => RuntimeStatusView::NotLoaded,
            RuntimeStatus::Idle => RuntimeStatusView::Idle,
            RuntimeStatus::SystemError => RuntimeStatusView::SystemError,
            RuntimeStatus::Active(flags) => RuntimeStatusView::Active(flags.deep_view()),
            RuntimeStatus::Unknown(value) => RuntimeStatusView::Unknown(value@),
        }
    }
}

/// Why a session must not be changed.
#[derive(Debug, PartialEq, Eq)]
pub enum ProtectionReason {
    Pinned,
    PinnedUnknown,
    Running,
    WaitingApproval,
    WaitingInput,
    UnsafeStatus(String),
    UnverifiableSource,
    MissingTimestamp,
    IncompleteRelations,
    WriteCapabilityMissing,
    StorageUnavailable,
}

#[verifier::ext_equal]
pub enum ProtectionReasonView {
    Pinned,
    PinnedUnknown,
    Running,
    WaitingApproval,
    WaitingInput,
    UnsafeStatus(Seq<char>),
    UnverifiableSource,
    MissingTimestamp,
    IncompleteRelations,
    WriteCapabilityMissing,
    StorageUnavailable,
}

impl DeepView for ProtectionReason {
    type V = ProtectionReasonView;

    open spec fn deep_view(&self) -> ProtectionReasonView {
        match self {
            ProtectionReason::Pinned => ProtectionReasonView::Pinned,
            ProtectionReason::PinnedUnknown => ProtectionReasonView::PinnedUnknown,
            ProtectionReason::Running => ProtectionReasonView::Running,
            ProtectionReason::WaitingApproval => ProtectionReasonView::WaitingApproval,
            ProtectionReason::WaitingInput => ProtectionReasonView::WaitingInput,
            ProtectionReason::UnsafeStatus(value) => ProtectionReasonView::UnsafeStatus(value@),
            ProtectionReason::UnverifiableSource => ProtectionReasonView::UnverifiableSource,
            ProtectionReason::MissingTimestamp => ProtectionReasonView::MissingTimestamp,
            ProtectionReason::IncompleteRelations => ProtectionReasonView::IncompleteRelations,
            ProtectionReason::WriteCapabilityMissing =>
                ProtectionReasonView::WriteCapabilityMissing,
            ProtectionReason::StorageUnavailable => ProtectionReasonView::StorageUnavailable,
        }
    }
}

/// The message that a reason shows.
pub open spec fn reason_message(reason: ProtectionReasonView) -> Seq<char> {
    match reason {
        ProtectionReasonView::Pinned => "pinned"@,
        ProtectionReasonView::PinnedUnknown => "pin state unknown"@,
        ProtectionReasonView::Running => "running or queued"@,
        ProtectionReasonView::WaitingApproval => "waiting for approval"@,
        ProtectionReasonView::WaitingInput => "waiting for user input"@,
        ProtectionReasonView::UnsafeStatus(value) => "unsafe status: "@ + value,
        ProtectionReasonView::UnverifiableSource => "thread source is unverifiable"@,
        ProtectionReasonView::MissingTimestamp => "last activity is unavailable"@,
        ProtectionReasonView::IncompleteRelations => "thread relationship is incomplete"@,
        ProtectionReasonView::WriteCapabilityMissing =>
            "required app-server capability is missing"@,
        ProtectionReasonView::StorageUnavailable => "local operation record is unavailable"@,
    }
}

impl ProtectionReason {
    /// The text that is shown for the reason.
    pub fn message(&self) -> (r: String)
        ensures
            r@ == reason_message(self.deep_view()),
    {
        match self {
            ProtectionReason::Pinned => "pinned".to_owned(),
            ProtectionReason::PinnedUnknown => "pin state unknown".to_owned(),
            ProtectionReason::Running => "running or queued".to_owned(),
            ProtectionReason::WaitingApproval => "waiting for approval".to_owned(),
            ProtectionReason::WaitingInput => "waiting for user input".to_owned(),
            ProtectionReason::UnsafeStatus(value) => "unsafe status: ".to_owned().concat(
                value.as_str(),
            ),
            ProtectionReason::UnverifiableSource => "thread source is unverifiable".to_owned(),
            ProtectionReason::MissingTimestamp => "last activity is unavailable".to_owned(),
            ProtectionReason::IncompleteRelations => "thread relationship is incomplete".to_owned(),
            ProtectionReason::WriteCapabilityMissing =>
                "required app-server capability is missing".to_owned(),
            ProtectionReason::StorageUnavailable =>
                "local operation record is unavailable".to_owned(),
        }
    }
}

impl Clone for ProtectionReason {
    fn clone(&self) -> (r: Self)
        ensures
            r.deep_view() == self.deep_view(),
    {
        match self {
            ProtectionReason::Pinned => ProtectionReason::Pinned,
            ProtectionReason::PinnedUnknown => ProtectionReason::PinnedUnknown,
            ProtectionReason::Running => ProtectionReason::Running,
            ProtectionReason::WaitingApproval => ProtectionReason::WaitingApproval,
            ProtectionReason::WaitingInput => ProtectionReason::WaitingInput,
            ProtectionReason::UnsafeStatus(value) => ProtectionReason::UnsafeStatus(value.clone()),
            ProtectionReason::UnverifiableSource => ProtectionReason::UnverifiableSource,
            ProtectionReason::MissingTimestamp => ProtectionReason::MissingTimestamp,
            ProtectionReason::IncompleteRelations => ProtectionReason::IncompleteRelations,
            ProtectionReason::WriteCapabilityMissing => ProtectionReason::WriteCapabilityMissing,
            ProtectionReason::StorageUnavailable => ProtectionReason::StorageUnavailable,
        }
    }
}

/// Why a session in this status must not be changed, if so.
pub open spec fn status_protection(status: RuntimeStatusView) -> Option<ProtectionReasonView> {
    match status {
        RuntimeStatusView::NotLoaded => None,
        RuntimeStatusView::Idle => None,
        RuntimeStatusView::SystemError => Some(
            ProtectionReasonView::UnsafeStatus("systemError"@),
        ),
        RuntimeStatusView::Active(flags) => Some(
            if flags.contains("waitingOnApproval"@) {
                ProtectionReasonView::WaitingApproval
            } else if flags.contains("waitingOnUserInput"@) {
                ProtectionReasonView::WaitingInput
            } else {
                ProtectionReasonView::Running
            },
        ),
        RuntimeStatusView::Unknown(value) => Some(ProtectionReasonView::UnsafeStatus(value)),
    }
}

/// How a status enters the signature of a tree.
pub open spec fn status_signature(status: RuntimeStatusView) -> Seq<char> {
    match status {
        RuntimeStatusView::NotLoaded => "notLoaded"@,
        RuntimeStatusView::Idle => "idle"@,
        RuntimeStatusView::SystemError => "systemError"@,
        RuntimeStatusView::Active(flags) => "active:"@ + crate::text::joined(flags, ","@),
        RuntimeStatusView::Unknown(value) => "unknown:"@ + value,
    }
}

/// Whether a list holds a text.
pub fn list_has(list: &Vec<String>, value: &str) -> (r: bool)
    ensures
        r == list.deep_view().contains(value@),
{
    let mut i: usize = 0;
    while i < list.len()
        invariant
            i <= list@.len(),
            forall|k: int| 0 <= k < i ==> list@[k]@ != value@,
        decreases list.len() - i,
    {
        if same(list[i].as_str(), value) {
            assert(list.deep_view()[i as int] == value@);
            return true;
        }
        i += 1;
    }
    proof {
        if list.deep_view().contains(value@) {
            let k = list.deep_view().index_of(value@);
            assert(list.deep_view()[k] == list@[k]@);
        }
    }
    false
}

impl RuntimeStatus {
    pub fn protection_reason(&self) -> (r: Option<ProtectionReason>)
        ensures
            r.deep_view() == status_protection(self.deep_view()),
    {
        match self {
            RuntimeStatus::NotLoaded => None,
            RuntimeStatus::Idle => None,
            RuntimeStatus::Active(flags) => if list_has(flags, "waitingOnApproval") {
                Some(ProtectionReason::WaitingApproval)
            } else if list_has(flags, "waitingOnUserInput") {
                Some(ProtectionReason::WaitingInput)
            } else {
                Some(ProtectionReason::Running)
            },
            RuntimeStatus::SystemError => Some(
                ProtectionReason::UnsafeStatus("systemError".to_owned()),
            ),
            RuntimeStatus::Unknown(value) => Some(ProtectionReason::UnsafeStatus(value.clone())),
        }
    }

    pub fn signature(&self) -> (r: String)
        ensures
            r@ == status_signature(self.deep_view()),
    {
        match self {
            RuntimeStatus::NotLoaded => "notLoaded".to_owned(),
            RuntimeStatus::Idle => "idle".to_owned(),
            RuntimeStatus::SystemError => "systemError".to_owned(),
            RuntimeStatus::Active(flags) => "active:".to_owned().concat(
                crate::text::join(flags, ",").as_str(),
            ),
            RuntimeStatus::Unknown(value) => "unknown:".to_owned().concat(value.as_str()),
        }
    }
}

impl Clone for RuntimeStatus {
    fn clone(&self) -> (r: Self)
        ensures
            r.deep_view() == self.deep_view(),
    {
        match self {
            RuntimeStatus::NotLoaded => RuntimeStatus::NotLoaded,
            RuntimeStatus::Idle => RuntimeStatus::Idle,
            RuntimeStatus::SystemError => RuntimeStatus::SystemError,
            RuntimeStatus::Active(flags) => RuntimeStatus::Active(copy_texts(flags)),
            RuntimeStatus::Unknown(value) => RuntimeStatus::Unknown(value.clone()),
        }
    }
}

/// One session.
#[derive(Debug, PartialEq, Eq)]
pub struct SessionNode {
    pub id: String,
    pub title: String,
    pub project: Option<String>,
    pub provider: Option<String>,
    pub model: Option<String>,
    pub cwd: String,
    /// Size of the validated rollout file at scan time; absent when unavailable.
    pub rollout_bytes: Option<u64>,
    pub last_activity: Option<i64>,
    pub archived: bool,
    pub pinned: Option<bool>,
    pub status: RuntimeStatus,
    pub parent_id: Option<String>,
    pub source: SessionSource,
}

#[verifier::ext_equal]
pub struct SessionNodeView {
    pub id: Seq<char>,
    pub title: Seq<char>,
    pub project: Option<Seq<char>>,
    pub provider: Option<Seq<char>>,
    pub model: Option<Seq<char>>,
    pub cwd: Seq<char>,
    pub rollout_bytes: Option<u64>,
    pub last_activity: Option<i64>,
    pub archived: bool,
    pub pinned: Option<bool>,
    pub status: RuntimeStatusView,
    pub parent_id: Option<Seq<char>>,
    pub source: SessionSourceView,
}

impl DeepView for SessionNode {
    type V = SessionNodeView;

    open spec fn deep_view(&self) -> SessionNodeView {
        SessionNodeView {
            id: self.id@,
            title: self.title@,
            project: self.project.deep_view(),
            provider: self.provider.deep_view(),
            model: self.model.deep_view(),
            cwd: self.cwd@,
            rollout_bytes: self.rollout_bytes,
            last_activity: self.last_activity,
            archived: self.archived,
            pinned: self.pinned,
            status: self.status.deep_view(),
            parent_id: self.parent_id.deep_view(),
            source: self.source.deep_view(),
        }
    }
}

impl Clone for SessionNode {
    fn clone(&self) -> (r: Self)
        ensures
            r.deep_view() == self.deep_view(),
    {
        SessionNode {
            id: self.id.clone(),
            title: self.title.clone(),
            project: copy_option(&self.project),
            provider: copy_option(&self.provider),
            model: copy_option(&self.model),
            cwd: self.cwd.clone(),
            rollout_bytes: self.rollout_bytes,
            last_activity: self.last_activity,
            archived: self.archived,
            pinned: self.pinned,
            status: self.status.clone(),
            parent_id: copy_option(&self.parent_id),
            source: self.source.clone(),
        }
    }
}

/// Why a session must not be changed, if so.
pub open spec fn node_protection(node: SessionNodeView) -> Option<ProtectionReasonView> {
    if node.pinned == Some(true) {
        Some(ProtectionReasonView::Pinned)
    } else if node.pinned is None {
        Some(ProtectionReasonView::PinnedUnknown)
    } else if !known_source(node.source) {
        Some(ProtectionReasonView::UnverifiableSource)
    } else if node.last_activity is None {
        Some(ProtectionReasonView::MissingTimestamp)
    } else {
        status_protection(node.status)
    }
}

/// A session is free to be changed exactly where it is known not to be pinned,
/// its source and its last activity are known, and nothing runs in it.
pub proof fn law_only_quiet_sessions_are_free(node: SessionNodeView)
    ensures
        node_protection(node) is None <==> {
            &&& node.pinned == Some(false)
            &&& known_source(node.source)
            &&& node.last_activity is Some
            &&& node.status is NotLoaded || node.status is Idle
        },
{
    if let Some(pinned) = node.pinned {
        assert(pinned == true || pinned == false);
    }
}

impl SessionNode {
    pub fn protection_reason(&self) -> (r: Option<ProtectionReason>)
        ensures
            r.deep_view() == node_protection(self.deep_view()),
    {
        match self.pinned {
            Some(true) => return Some(ProtectionReason::Pinned),
            None => return Some(ProtectionReason::PinnedUnknown),
            Some(false) => {},
        }
        if !self.source.is_known() {
            return Some(ProtectionReason::UnverifiableSource);
        }
        if self.last_activity.is_none() {
            return Some(ProtectionReason::MissingTimestamp);
        }
        self.status.protection_reason()
    }
}

/// What one scan of the server found.
#[derive(Debug, PartialEq, Eq)]
pub struct ScanSnapshot {
    pub nodes: Vec<SessionNode>,
    pub write_capable: bool,
    pub relation_complete: bool,
    pub diagnostics: Vec<String>,
}

#[verifier::ext_equal]
pub struct ScanSnapshotView {
    pub nodes: Seq<SessionNodeView>,
    pub write_capable: bool,
    pub relation_complete: bool,
    pub diagnostics: Seq<Seq<char>>,
}

impl DeepView for ScanSnapshot {
    type V = ScanSnapshotView;

    open spec fn deep_view(&self) -> ScanSnapshotView {
        ScanSnapshotView {
            nodes: self.nodes.deep_view(),
            write_capable: self.write_capable,
            relation_complete: self.relation_complete,
            diagnostics: self.diagnostics.deep_view(),
        }
    }
}

impl Clone for ScanSnapshot {
    fn clone(&self) -> (r: Self)
        ensures
            r.deep_view() == self.deep_view(),
    {
        ScanSnapshot {
            nodes: copy_list(&self.nodes),
            write_capable: self.write_capable,
            relation_complete: self.relation_complete,
            diagnostics: copy_texts(&self.diagnostics),
        }
    }
}

/// An interactive session with all sessions below it.
#[derive(Debug, PartialEq, Eq)]
pub struct SessionTree {
    pub root_id: String,
    pub nodes: Vec<SessionNode>,
    pub last_activity: Option<i64>,
    pub protection: Vec<ProtectionReason>,
}

#[verifier::ext_equal]
pub struct SessionTreeView {
    pub root_id: Seq<char>,
    pub nodes: Seq<SessionNodeView>,
    pub last_activity: Option<i64>,
    pub protection: Seq<ProtectionReasonView>,
}

impl DeepView for SessionTree {
    type V = SessionTreeView;

    open spec fn deep_view(&self) -> SessionTreeView {
        SessionTreeView {
            root_id: self.root_id@,
            nodes: self.nodes.deep_view(),
            last_activity: self.last_activity,
            protection: self.protection.deep_view(),
        }
    }
}

impl Clone for SessionTree {
    fn clone(&self) -> (r: Self)
        ensures
            r.deep_view() == self.deep_view(),
    {
        SessionTree {
            root_id: self.root_id.clone(),
            nodes: copy_list(&self.nodes),
            last_activity: self.last_activity,
            protection: copy_list(&self.protection),
        }
    }
}

/// Which trees are shown.
#[derive(Debug, PartialEq, Eq)]
pub struct Filter {
    pub cutoff: Cutoff,
    pub project: Option<String>,
    pub query: Option<String>,
    pub archived: Option<bool>,
}

#[verifier::ext_equal]
pub struct FilterView {
    pub cutoff: Cutoff,
    pub project: Option<Seq<char>>,
    pub query: Option<Seq<char>>,
    pub archived: Option<bool>,
}

impl DeepView for Filter {
    type V = FilterView;

    open spec fn deep_view(&self) -> FilterView {
        FilterView {
            cutoff: self.cutoff,
            project: self.project.deep_view(),
            query: self.query.deep_view(),
            archived: self.archived,
        }
    }
}

impl Clone for Filter {
    fn clone(&self) -> (r: Self)
        ensures
            r.deep_view() == self.deep_view(),
    {
        Filter {
            cutoff: self.cutoff,
            project: copy_option(&self.project),
            query: copy_option(&self.query),
            archived: self.archived,
        }
    }
}

/// What can be done to trees and to leftover data.
#[derive(Debug, Clone, Copy, PartialEq, Eq, Structural)]
pub enum Action {
    Archive,
    Restore,
    Delete,
    Cleanup,
}

impl DeepView for Action {
    type V = Action;

    open spec fn deep_view(&self) -> Action {
        *self
    }
}

/// The name of an action.
pub open spec fn action_name(action: Action) -> Seq<char> {
    match action {
        Action::Archive => "archive"@,
        Action::Restore => "restore"@,
        Action::Delete => "delete"@,
        Action::Cleanup => "cleanup"@,
    }
}

/// The action that a text names.
pub open spec fn action_of(value: Seq<char>) -> Option<Action> {
    if value == "archive"@ {
        Some(Action::Archive)
    } else if value == "restore"@ {
        Some(Action::Restore)
    } else if value == "delete"@ {
        Some(Action::Delete)
    } else if value == "cleanup"@ {
        Some(Action::Cleanup)
    } else {
        None
    }
}

impl Action {
    pub fn as_str(self) -> (r: &'static str)
        ensures
            r@ == action_name(self),
    {
        match self {
            Action::Archive => "archive",
            Action::Restore => "restore",
            Action::Delete => "delete",
            Action::Cleanup => "cleanup",
        }
    }

    pub fn parse(value: &str) -> (r: Option<Self>)
        ensures
            r == action_of(value@),
    {
        if same(value, "archive") {
            Some(Action::Archive)
        } else if same(value, "restore") {
            Some(Action::Restore)
        } else if same(value, "delete") {
            Some(Action::Delete)
        } else if same(value, "cleanup") {
            Some(Action::Cleanup)
        } else {
            None
        }
    }
}

/// The name of an action reads back as the action, and nothing else does.
pub proof fn law_action_round_trip(action: Action, value: Seq<char>)
    ensures
        action_of(action_name(action)) == Some(action),
        action_of(value) == Some(action) ==> value == action_name(action),
{
    reveal_strlit("archive");
    reveal_strlit("restore");
    reveal_strlit("delete");
    reveal_strlit("cleanup");
    assert("archive"@[0] == 'a' && "restore"@[0] == 'r');
    assert("delete"@[0] == 'd' && "cleanup"@[0] == 'c');
}

/// The kinds of leftover data.
#[derive(Debug, Clone, Copy, PartialEq, Eq, PartialOrd, Ord, Structural)]
pub enum MaintenanceKind {
    UnreferencedRollout,
    StaleSpawnEdge,
    MissingRolloutThread,
}

impl DeepView for MaintenanceKind {
    type V = MaintenanceKind;

    open spec fn deep_view(&self) -> MaintenanceKind {
        *self
    }
}

/// The name of a kind of leftover data.
pub open spec fn kind_name(kind: MaintenanceKind) -> Seq<char> {
    match kind {
        MaintenanceKind::UnreferencedRollout => "unreferenced_rollout"@,
        MaintenanceKind::StaleSpawnEdge => "stale_spawn_edge"@,
        MaintenanceKind::MissingRolloutThread => "missing_rollout_thread"@,
    }
}

impl MaintenanceKind {
    pub fn as_str(self) -> (r: &'static str)
        ensures
            r@ == kind_name(self),
    {
        match self {
            MaintenanceKind::UnreferencedRollout => "unreferenced_rollout",
            MaintenanceKind::StaleSpawnEdge => "stale_spawn_edge",
            MaintenanceKind::MissingRolloutThread => "missing_rollout_thread",
        }
    }
}

/// One piece of leftover data that can be cleaned up.
#[derive(Debug, PartialEq, Eq)]
pub struct MaintenanceCandidate {
    pub key: String,
    pub kind: MaintenanceKind,
    pub label: String,
    pub detail: String,
    pub project: Option<String>,
    pub bytes: u64,
    pub fingerprint: String,
}

#[verifier::ext_equal]
pub struct MaintenanceCandidateView {
    pub key: Seq<char>,
    pub kind: MaintenanceKind,
    pub label: Seq<char>,
    pub detail: Seq<char>,
    pub project: Option<Seq<char>>,
    pub bytes: u64,
    pub fingerprint: Seq<char>,
}

impl DeepView for MaintenanceCandidate {
    type V = MaintenanceCandidateView;

    open spec fn deep_view(&self) -> MaintenanceCandidateView {
        MaintenanceCandidateView {
            key: self.key@,
            kind: self.kind,
            label: self.label@,
            detail: self.detail@,
            project: self.project.deep_view(),
            bytes: self.bytes,
            fingerprint: self.fingerprint@,
        }
    }
}

impl Clone for MaintenanceCandidate {
    fn clone(&self) -> (r: Self)
        ensures
            r.deep_view() == self.deep_view(),
    {
        MaintenanceCandidate {
            key: self.key.clone(),
            kind: self.kind,
            label: self.label.clone(),
            detail: self.detail.clone(),
            project: copy_option(&self.project),
            bytes: self.bytes,
            fingerprint: self.fingerprint.clone(),
        }
    }
}

/// What a cleanup will remove.
#[derive(Debug, PartialEq, Eq)]
pub struct MaintenancePlan {
    pub candidates: Vec<MaintenanceCandidate>,
    pub total_bytes: u64,
}

#[verifier::ext_equal]
pub struct MaintenancePlanView {
    pub candidates: Seq<MaintenanceCandidateView>,
    pub total_bytes: u64,
}

impl DeepView for MaintenancePlan {
    type V = MaintenancePlanView;

    open spec fn deep_view(&self) -> MaintenancePlanView {
        MaintenancePlanView {
            candidates: self.candidates.deep_view(),
            total_bytes: self.total_bytes,
        }
    }
}

impl Clone for MaintenancePlan {
    fn clone(&self) -> (r: Self)
        ensures
            r.deep_view() == self.deep_view(),
    {
        MaintenancePlan {
            candidates: copy_list(&self.candidates),
            total_bytes: self.total_bytes,
        }
    }
}

/// What a cleanup left behind.
#[derive(Debug, Clone, PartialEq, Eq)]
pub struct MaintenanceAck {
    pub backup_path: String,
}

/// One tree of a plan.
#[derive(Debug, PartialEq, Eq)]
pub struct PlannedTree {
    pub root_id: String,
    pub signature: String,
    pub node_ids: Vec<String>,
}

#[verifier::ext_equal]
pub struct PlannedTreeView {
    pub root_id: Seq<char>,
    pub signature: Seq<char>,
    pub node_ids: Seq<Seq<char>>,
}

impl DeepView for PlannedTree {
    type V = PlannedTreeView;

    open spec fn deep_view(&self) -> PlannedTreeView {
        PlannedTreeView {
            root_id: self.root_id@,
            signature: self.signature@,
            node_ids: self.node_ids.deep_view(),
        }
    }
}

impl Clone for PlannedTree {
    fn clone(&self) -> (r: Self)
        ensures
            r.deep_view() == self.deep_view(),
    {
        PlannedTree {
            root_id: self.root_id.clone(),
            signature: self.signature.clone(),
            node_ids: copy_texts(&self.node_ids),
        }
    }
}

/// A plan, as it is shown before it runs.
#[derive(Debug, PartialEq, Eq)]
pub struct OperationPreview {
    pub action: Action,
    pub trees: Vec<PlannedTree>,
    pub impacted_count: usize,
    pub blocked: Vec<(String, Vec<ProtectionReason>)>,
}

#[verifier::ext_equal]
pub struct OperationPreviewView {
    pub action: Action,
    pub trees: Seq<PlannedTreeView>,
    pub impacted_count: usize,
    pub blocked: Seq<(Seq<char>, Seq<ProtectionReasonView>)>,
}

impl DeepView for OperationPreview {
    type V = OperationPreviewView;

    open spec fn deep_view(&self) -> OperationPreviewView {
        OperationPreviewView {
            action: self.action,
            trees: self.trees.deep_view(),
            impacted_count: self.impacted_count,
            blocked: self.blocked.deep_view(),
        }
    }
}

fn copy_blocked(v: &Vec<(String, Vec<ProtectionReason>)>) -> (r: Vec<
    (String, Vec<ProtectionReason>),
>)
    ensures
        r.deep_view() == v.deep_view(),
{
    let mut r: Vec<(String, Vec<ProtectionReason>)> = Vec::new();
    let mut i: usize = 0;
    while i < v.len()
        invariant
            i <= v@.len(),
            r.deep_view() == v.deep_view().take(i as int),
        decreases v.len() - i,
    {
        let ghost before = r.deep_view();
        let entry = (v[i].0.clone(), copy_list(&v[i].1));
        r.push(entry);
        assert(entry.deep_view() == v.deep_view()[i as int]);
        assert(r.deep_view() =~= before.push(entry.deep_view()));
        assert(r.deep_view() =~= v.deep_view().take(i as int + 1));
        i += 1;
    }
    assert(r.deep_view() =~= v.deep_view());
    r
}

impl Clone for OperationPreview {
    fn clone(&self) -> (r: Self)
        ensures
            r.deep_view() == self.deep_view(),
    {
        OperationPreview {
            action: self.action,
            trees: copy_list(&self.trees),
            impacted_count: self.impacted_count,
            blocked: copy_blocked(&self.blocked),
        }
    }
}

/// What the server said to a change.
#[derive(Debug, Clone, Copy, PartialEq, Eq, Structural)]
pub struct MutationAck {
    pub response_received: bool,
    pub notification_seen: bool,
}

/// What became of one session of a plan.
#[derive(Debug, PartialEq, Eq)]
pub enum ItemResult {
    Success,
    Skipped,
    Failed(String),
    Interrupted,
}

#[verifier::ext_equal]
pub enum ItemResultView {
    Success,
    Skipped,
    Failed(Seq<char>),
    Interrupted,
}

impl DeepView for ItemResult {
    type V = ItemResultView;

    open spec fn deep_view(&self) -> ItemResultView {
        match self {
            ItemResult::Success => ItemResultView::Success,
            ItemResult::Skipped => ItemResultView::Skipped,
            ItemResult::Failed(message) => ItemResultView::Failed(message@),
            ItemResult::Interrupted => ItemResultView::Interrupted,
        }
    }
}

impl Clone for ItemResult {
    fn clone(&self) -> (r: Self)
        ensures
            r.deep_view() == self.deep_view(),
    {
        match self {
            ItemResult::Success => ItemResult::Success,
            ItemResult::Skipped => ItemResult::Skipped,
            ItemResult::Failed(message) => ItemResult::Failed(message.clone()),
            ItemResult::Interrupted => ItemResult::Interrupted,
        }
    }
}

/// How a result is written into the record.
pub open spec fn stored_result(result: ItemResultView) -> Seq<char> {
    match result {
        ItemResultView::Success => "success"@,
        ItemResultView::Skipped => "skipped"@,
        ItemResultView::Failed(message) => "failed:"@ + message,
        ItemResultView::Interrupted => "interrupted"@,
    }
}

/// Nothing is left to do for such a result.
pub open spec fn settled(result: ItemResultView) -> bool {
    result is Success || result is Skipped
}

impl ItemResult {
    pub fn as_storage_value(&self) -> (r: String)
        ensures
            r@ == stored_result(self.deep_view()),
    {
        match self {
            ItemResult::Success => "success".to_owned(),
            ItemResult::Skipped => "skipped".to_owned(),
            ItemResult::Failed(message) => "failed:".to_owned().concat(message.as_str()),
            ItemResult::Interrupted => "interrupted".to_owned(),
        }
    }

    pub fn is_settled(&self) -> (r: bool)
        ensures
            r == settled(self.deep_view()),
    {
        match self {
            ItemResult::Success => true,
            ItemResult::Skipped => true,
            _ => false,
        }
    }
}

/// Different results are written differently.
pub proof fn law_stored_results_differ(a: ItemResultView, b: ItemResultView)
    requires
        stored_result(a) == stored_result(b),
    ensures
        a == b,
{
    reveal_strlit("success");
    reveal_strlit("skipped");
    reveal_strlit("failed:");
    reveal_strlit("interrupted");
    assert("success"@[1] == 'u' && "skipped"@[1] == 'k' && "interrupted"@[1] == 'n');
    if a is Failed {
        assert(stored_result(a)[1] == 'a');
    }
    if b is Failed {
        assert(stored_result(b)[1] == 'a');
    }
    if a is Failed && b is Failed {
        assert(a->Failed_0 =~= stored_result(a).skip(7));
        assert(b->Failed_0 =~= stored_result(b).skip(7));
    }
}

/// What an operation did.
#[derive(Debug, PartialEq, Eq)]
pub struct OperationResult {
    pub batch_id: String,
    pub action: Action,
    pub items: TextMap<ItemResult>,
    pub warnings: Vec<String>,
}

#[verifier::ext_equal]
pub struct OperationResultView {
    pub batch_id: Seq<char>,
    pub action: Action,
    pub items: Map<Seq<char>, ItemResultView>,
    pub warnings: Seq<Seq<char>>,
}

impl DeepView for OperationResult {
    type V = OperationResultView;

    open spec fn deep_view(&self) -> OperationResultView {
        OperationResultView {
            batch_id: self.batch_id@,
            action: self.action,
            items: self.items@,
            warnings: self.warnings.deep_view(),
        }
    }
}

/// Every item of a result is settled.
pub open spec fn all_settled(items: Map<Seq<char>, ItemResultView>) -> bool {
    forall|id: Seq<char>| #[trigger] items.contains_key(id) ==> settled(items[id])
}

/// Whether every item of a result is settled.
pub fn every_settled(items: &TextMap<ItemResult>) -> (r: bool)
    ensures
        r == all_settled(items@),
{
    let keys = items.keys();
    let mut i: usize = 0;
    while i < keys.len()
        invariant
            i <= keys@.len(),
            keys.deep_view().to_set() == items@.dom(),
            forall|k: int|
                0 <= k < i ==> settled(items@[#[trigger] keys.deep_view()[k]]),
        decreases keys.len() - i,
    {
        let ghost key = keys.deep_view()[i as int];
        assert(keys.deep_view().to_set().contains(key));
        match items.get(keys[i].as_str()) {
            Some(value) => {
                if !value.is_settled() {
                    return false;
                }
            },
            None => {},
        }
        i += 1;
    }
    proof {
        assert forall|id: Seq<char>| #[trigger] items@.contains_key(id) implies settled(
            items@[id],
        ) by {
            assert(keys.deep_view().to_set().contains(id));
            let k = keys.deep_view().index_of(id);
            assert(keys.deep_view()[k] == id);
        }
    }
    true
}

impl OperationResult {
    pub fn is_complete_success(&self) -> (r: bool)
        ensures
            r == all_settled(self.deep_view().items),
    {
        every_settled(&self.items)
    }
}

/// One line of the history of operations.
#[derive(Debug, Clone, PartialEq, Eq)]
pub struct HistoryEntry {
    pub batch_id: String,
    pub created_at: i64,
    pub action: String,
    pub planned_count: usize,
    pub status: String,
}

#[verifier::ext_equal]
pub struct HistoryEntryView {
    pub batch_id: Seq<char>,
    pub created_at: i64,
    pub action: Seq<char>,
    pub planned_count: usize,
    pub status: Seq<char>,
}

impl DeepView for HistoryEntry {
    type V = HistoryEntryView;

    open spec fn deep_view(&self) -> HistoryEntryView {
        HistoryEntryView {
            batch_id: self.batch_id@,
            created_at: self.created_at,
            action: self.action@,
            planned_count: self.planned_count,
            status: self.status@,
        }
    }
}

/// A batch whose outcome was never recorded.
#[derive(Debug, Clone, PartialEq, Eq)]
pub struct PendingBatch {
    pub batch_id: String,
    pub action: Action,
    pub node_ids: Vec<String>,
}

#[verifier::ext_equal]
pub struct PendingBatchView {
    pub batch_id: Seq<char>,
    pub action: Action,
    pub node_ids: Seq<Seq<char>>,
}

impl DeepView for PendingBatch {
    type V = PendingBatchView;

    open spec fn deep_view(&self) -> PendingBatchView {
        PendingBatchView {
            batch_id: self.batch_id@,
            action: self.action,
            node_ids: self.node_ids.deep_view(),
        }
    }
}

/// The server's side: it scans, changes sessions and cleans up leftover data.
/// Each method returns when its work is done.
pub trait SessionGateway {
    fn target_summary(&self) -> Option<String> {
        None
    }

    fn scan(&mut self) -> Result<ScanSnapshot, VaultError>;

    fn mutate(&mut self, action: Action, thread_id: &str) -> Result<MutationAck, VaultError>;

    fn maintenance_candidates(&self) -> Vec<MaintenanceCandidate> {
        Vec::new()
    }

    fn cleanup(&mut self, _batch_id: &str, _candidate: &MaintenanceCandidate) -> Result<
        MaintenanceAck,
        VaultError,
    > {
        Err(VaultError::Blocked("dirty-data maintenance is unavailable".to_owned()))
    }
}

/// Where plans and their outcome are recorded.
pub trait OperationStore {
    fn write_ready(&self) -> Result<(), VaultError>;

    fn load_preferences(&self) -> Result<Preferences, VaultError>;

    fn save_preferences(&mut self, value: &Preferences) -> Result<(), VaultError>;

    fn begin_batch(
        &mut self,
        plan_key: &str,
        action: Action,
        created_at: i64,
        node_ids: &Vec<String>,
    ) -> Result<String, VaultError>;

    fn complete_batch(
        &mut self,
        batch_id: &str,
        results: &TextMap<ItemResult>,
        status: &str,
        completed_at: i64,
    ) -> Result<(), VaultError>;

    fn pending_batches(&self) -> Result<Vec<PendingBatch>, VaultError>;

    fn prune(&mut self, now: i64, retention_days: u32) -> Result<usize, VaultError>;

    fn history(&self, limit: usize) -> Result<Vec<HistoryEntry>, VaultError>;
}

} // verus!
