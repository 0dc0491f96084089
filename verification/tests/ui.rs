use codex_vault::domain::{
    Action, Cutoff, HistoryEntry, ItemResult, Language, MaintenanceCandidate, MaintenanceKind,
    MutationAck, OperationPreview, OperationResult, OperationStore, PendingBatch, PlannedTree,
    Preferences, ProtectionReason, RuntimeStatus, ScanSnapshot, SessionGateway, SessionNode,
    SessionSource, SessionTree, VaultError,
};
use codex_vault::i18n::{Catalog, Locales};
use codex_vault::ordered::{TextMap, TextSet};
use codex_vault::service::{now_epoch, VaultService};
use codex_vault::ui::measure::{
    clamp_index, cycle_index, display_char_width, display_width, event_allowed, fit_to_width,
    format_storage, human_bytes, is_exit_key, is_select_all_key, result_view_height, short_id,
    storage_level, terminal_too_small, window_start, Key, KeyCode, StorageLevel,
};
use codex_vault::ui::overview::{
    execution_label_text, execution_percent, execution_text, filter_page, footer_page, header_page,
    help_page, input_page, scan_page, scan_progress_text, scan_pulse, screen_help_key, screen_step,
    small_page, ExecutionEvent, ExecutionPhase, ExecutionProgress,
};
use codex_vault::ui::page::Piece;
use codex_vault::ui::review::{
    cleanup_page, confirmation_page, history_page, maintenance_head_page, maintenance_rows,
    preview_page, result_page,
};
use codex_vault::ui::run::handle_key;
use codex_vault::ui::scope::{
    action_candidate, choice_index, project_options, project_tabs, select_all_eligible,
    summarize_scope, toggle_maintenance_kind, toggle_selection, Facts, ProjectTab,
};
use codex_vault::ui::state::{Screen, UiState};
use codex_vault::ui::table::{column_heads, is_wide, row_cells, select_rows, select_title, tabs_page};
use codex_vault::ui::words::{cutoff_text, operation_lines, selection_marker};

struct Gateway {
    snapshot: ScanSnapshot,
}

impl SessionGateway for Gateway {
    fn scan(&mut self) -> Result<ScanSnapshot, VaultError> {
        Ok(self.snapshot.clone())
    }

    fn mutate(&mut self, _: Action, _: &str) -> Result<MutationAck, VaultError> {
        Ok(MutationAck {
            response_received: true,
            notification_seen: true,
        })
    }
}

struct Store;

impl OperationStore for Store {
    fn write_ready(&self) -> Result<(), VaultError> {
        Ok(())
    }

    fn load_preferences(&self) -> Result<Preferences, VaultError> {
        Ok(Preferences::default())
    }

    fn save_preferences(&mut self, _: &Preferences) -> Result<(), VaultError> {
        Ok(())
    }

    fn begin_batch(
        &mut self,
        _: &str,
        _: Action,
        _: i64,
        _: &Vec<String>,
    ) -> Result<String, VaultError> {
        Ok("batch-test".into())
    }

    fn complete_batch(
        &mut self,
        _: &str,
        _: &TextMap<ItemResult>,
        _: &str,
        _: i64,
    ) -> Result<(), VaultError> {
        Ok(())
    }

    fn pending_batches(&self) -> Result<Vec<PendingBatch>, VaultError> {
        Ok(Vec::new())
    }

    fn prune(&mut self, _: i64, _: u32) -> Result<usize, VaultError> {
        Ok(0)
    }

    fn history(&self, _: usize) -> Result<Vec<HistoryEntry>, VaultError> {
        Ok(Vec::new())
    }
}

fn locales() -> Locales {
    Locales {
        en: "all=All\ntitle=Codex Vault\nimpacted=affected".into(),
        zh_cn: [
            "all=全部",
            "impacted=影响节点",
            "selected=已选择",
            "step_select=选择",
            "tree_selected=已选择",
            "tree_unselected=已取消选择",
            "execution_applying=正在执行状态变更",
            "execution_verifying=正在核验最终状态",
            "execution_wait=期间不会接受其他按键",
            "delete_confirmation_title=永久删除确认",
            "delete_confirm_prefix=请输入“影响节点”数",
            "delete_confirmation_mismatch=影响节点数不一致",
            "reason_pin_unknown=置顶状态未知",
            "reason_capability_missing=缺少必要的 app-server 写入能力",
            "storage=占用",
        ]
        .join("\n"),
    }
}

fn zh() -> Catalog {
    Catalog::new(Language::ZhCn, &locales())
}

fn new_state() -> UiState {
    UiState::new(Preferences::default(), locales())
}

fn key(code: KeyCode) -> Key {
    Key {
        code,
        control: false,
        shift: false,
    }
}

fn texts(values: &[&str]) -> TextSet {
    let mut set = TextSet::new();
    for value in values {
        set.insert((*value).to_owned());
    }
    set
}

fn tree(id: &str, archived: bool, protection: Vec<ProtectionReason>) -> SessionTree {
    SessionTree {
        root_id: id.into(),
        nodes: vec![SessionNode {
            id: id.into(),
            title: "中文标题🙂".into(),
            project: Some("项目".into()),
            provider: Some("free".into()),
            model: Some("gpt-test".into()),
            cwd: "/tmp/项目".into(),
            rollout_bytes: Some(512),
            last_activity: Some(1),
            archived,
            pinned: Some(false),
            status: RuntimeStatus::Idle,
            parent_id: None,
            source: SessionSource::Cli,
        }],
        last_activity: Some(1),
        protection,
    }
}

fn selectable_snapshot() -> ScanSnapshot {
    ScanSnapshot {
        nodes: vec![
            tree("one", false, vec![]).nodes.remove(0),
            tree("two", false, vec![]).nodes.remove(0),
        ],
        write_capable: true,
        relation_complete: true,
        diagnostics: Vec::new(),
    }
}

fn scanned(snapshot: ScanSnapshot) -> VaultService<Gateway, Store> {
    let mut service = VaultService::new(Gateway { snapshot }, Store);
    service.refresh().unwrap();
    service
}

fn no_candidates() -> Vec<MaintenanceCandidate> {
    Vec::new()
}

fn facts<'a>(
    service: &'a VaultService<Gateway, Store>,
    candidates: &'a Vec<MaintenanceCandidate>,
) -> Facts<'a> {
    Facts {
        trees: service.trees(),
        candidates,
        now: now_epoch(),
        storage_ready: true,
    }
}

fn line_text(line: &[Piece]) -> String {
    line.iter().map(|piece| piece.text.as_str()).collect()
}

fn page_text(page: &[Vec<Piece>]) -> String {
    page.iter()
        .map(|line| line_text(line))
        .collect::<Vec<_>>()
        .join("\n")
        .replace(' ', "")
}

#[test]
fn action_candidates_follow_archive_lifecycle() {
    let active = tree("active", false, vec![]);
    let archived = tree("archived", true, vec![]);
    assert!(action_candidate(&active, Action::Archive));
    assert!(!action_candidate(&active, Action::Restore));
    assert!(!action_candidate(&active, Action::Delete));
    assert!(!action_candidate(&archived, Action::Archive));
    assert!(action_candidate(&archived, Action::Restore));
    assert!(action_candidate(&archived, Action::Delete));
}

#[test]
fn project_tabs_count_render_and_cycle_without_hidden_selection() {
    let mut snapshot = selectable_snapshot();
    snapshot.nodes[0].project = Some("/work/alpha".into());
    snapshot.nodes[0].cwd = "/work/alpha".into();
    snapshot.nodes[1].project = Some("/work/beta".into());
    snapshot.nodes[1].cwd = "/work/beta".into();
    let mut service = scanned(snapshot);
    let none = no_candidates();
    let mut state = new_state();
    state.screen = Screen::Select;
    state.choose_action(Action::Archive);
    state.selected.insert("one".into());
    state.index = 1;

    handle_key(key(KeyCode::Tab), 30, &mut state, &mut service);

    assert_eq!(state.filter.project.as_deref(), Some("/work/alpha"));
    assert_eq!(state.preferences.project, state.filter.project);
    assert!(state.selected.is_empty());
    assert_eq!(state.index, 0);
    let tabs = project_tabs(&facts(&service, &none), &state.filter);
    assert_eq!(
        tabs,
        vec![
            ProjectTab {
                value: None,
                count: 2,
                storage_bytes: Some(1024),
            },
            ProjectTab {
                value: Some("/work/alpha".into()),
                count: 1,
                storage_bytes: Some(512),
            },
            ProjectTab {
                value: Some("/work/beta".into()),
                count: 1,
                storage_bytes: Some(512),
            },
        ]
    );

    let rendered = line_text(&tabs_page(&state, &facts(&service, &none), 118)).replace(' ', "");
    assert!(rendered.contains("全部(2,1.0KiB)"));
    assert!(rendered.contains("alpha(1,512B)"));
    assert!(rendered.contains("beta(1,512B)"));

    handle_key(key(KeyCode::Tab), 30, &mut state, &mut service);
    assert_eq!(state.filter.project.as_deref(), Some("/work/beta"));
    handle_key(
        Key {
            code: KeyCode::BackTab,
            control: false,
            shift: true,
        },
        30,
        &mut state,
        &mut service,
    );
    assert_eq!(state.filter.project.as_deref(), Some("/work/alpha"));
}

#[test]
fn storage_totals_and_colored_rows_survive_selection_and_resize() {
    let mut snapshot = selectable_snapshot();
    snapshot.nodes[0].project = Some("/work/a".into());
    snapshot.nodes[0].rollout_bytes = Some(12 * 1024 * 1024);
    snapshot.nodes[1].project = Some("/work/b".into());
    snapshot.nodes[1].rollout_bytes = Some(2 * 1024 * 1024);
    let service = scanned(snapshot);
    let none = no_candidates();
    let mut state = new_state();
    state.screen = Screen::Select;
    state.index = 0;
    let tabs = project_tabs(&facts(&service, &none), &state.filter);
    assert_eq!(
        tabs.iter().map(|tab| tab.storage_bytes).collect::<Vec<_>>(),
        vec![
            Some(14 * 1024 * 1024),
            Some(12 * 1024 * 1024),
            Some(2 * 1024 * 1024)
        ]
    );
    for width in [100, 160] {
        let tabs = line_text(&tabs_page(&state, &facts(&service, &none), width - 2));
        assert!(tabs.contains("14.0 MiB"));
        let rows = select_rows(&state, &facts(&service, &none), 10);
        assert_eq!(rows.len(), 2);
        let wide = is_wide(width);
        let cells = row_cells(&rows[0], wide, "01-01".into());
        assert!(cells.iter().any(|cell| cell == "12.0 MiB"));
        assert!(cells[0].contains("›[ ]"));
        assert_eq!(rows[0].weight, storage_level(Some(12 * 1024 * 1024)));
        let second = row_cells(&rows[1], wide, "01-01".into());
        assert!(second.iter().any(|cell| cell == "2.0 MiB"));
        assert!(second[0].contains("[ ]") && !second[0].contains("›[ ]"));
        assert_eq!(rows[1].weight, storage_level(Some(2 * 1024 * 1024)));
        let heads = column_heads(&state.catalog, wide);
        assert!(heads.iter().any(|head| head.replace(' ', "").contains("占用")));
        assert_eq!(heads.len(), cells.len());
    }
    assert_eq!(format_storage(None), "?");
    assert_eq!(storage_level(None), StorageLevel::Unknown);
    assert_eq!(storage_level(Some(0)), StorageLevel::Small);
    let mut unknown = selectable_snapshot();
    unknown.nodes[1].rollout_bytes = None;
    let service = scanned(unknown);
    assert_eq!(
        project_tabs(&facts(&service, &none), &state.filter)[0].storage_bytes,
        None
    );
    assert_eq!(service.trees()[1].storage_bytes(), None);
}

#[test]
fn protected_tree_is_not_actionable() {
    let eligible = tree("eligible", false, vec![]);
    let protected = tree("protected", false, vec![ProtectionReason::Pinned]);
    let outside_filter = tree("outside", false, vec![]);
    let preview = OperationPreview {
        action: Action::Archive,
        trees: vec![PlannedTree {
            root_id: eligible.root_id.clone(),
            signature: eligible.signature(),
            node_ids: vec![eligible.root_id.clone()],
        }],
        impacted_count: 1,
        blocked: vec![(protected.root_id.clone(), vec![ProtectionReason::Pinned])],
    };
    let filtered = vec![&eligible, &protected];
    let summary = summarize_scope(&filtered, &preview, Action::Archive);
    assert_eq!(summary.eligible, texts(&["eligible"]));
    assert!(!summary.eligible.contains(&protected.root_id));
    assert!(!summary.eligible.contains(&outside_filter.root_id));
    assert_eq!(summary.impacted, 1);
    assert_eq!(summary.matched, 2);
    let mut selected = texts(&["stale-selection"]);
    select_all_eligible(&mut selected, &summary);
    assert_eq!(selected, texts(&["eligible"]));
    assert!(!toggle_selection(&mut selected, "protected", false));
    assert!(!selected.contains("protected"));
    assert!(!toggle_selection(&mut selected, "eligible", true));
    assert!(selected.is_empty());
}

#[test]
fn changing_action_and_filter_clear_selection() {
    let mut state = new_state();
    state.selected.insert("one".into());
    state.choose_action(Action::Archive);
    assert!(state.selected.is_empty());
    state.selected.insert("one".into());
    state.choose_action(Action::Archive);
    assert_eq!(state.selected.len(), 1);
    state.filter.cutoff = Cutoff::RollingDays(1);
    state.reset_selection();
    assert!(state.selected.is_empty());
}

#[test]
fn index_and_window_are_clamped_after_filter_shrinks() {
    assert_eq!(clamp_index(4_000, 2), 1);
    assert_eq!(clamp_index(4_000, 0), 0);
    assert_eq!(window_start(4_000, 2, 10), 0);
    assert_eq!(window_start(99, 100, 10), 90);
}

#[test]
fn unicode_truncation_is_safe_and_width_bounded() {
    let value = fit_to_width("会话🙂abc", 6);
    assert_eq!(value, "会话…");
    assert!(display_width(&value) <= 6);
    assert_eq!(fit_to_width("🙂", 1), "…");
}

#[test]
fn narrow_terminal_has_an_explicit_gate() {
    assert!(terminal_too_small(79, 30));
    assert!(terminal_too_small(100, 19));
    assert!(!terminal_too_small(80, 20));
    assert!(!event_allowed(79, 30, key(KeyCode::Enter)));
    assert!(event_allowed(79, 30, key(KeyCode::Char('q'))));
}

#[test]
fn screens_map_to_five_steps_and_screen_specific_help() {
    assert_eq!(screen_step(Screen::Scan, Screen::Scan), 0);
    assert_eq!(screen_step(Screen::Search, Screen::Scan), 1);
    assert_eq!(screen_step(Screen::Select, Screen::Scan), 2);
    assert_eq!(screen_step(Screen::Preview, Screen::Scan), 3);
    assert_eq!(screen_step(Screen::Result, Screen::Scan), 4);
    assert_eq!(screen_step(Screen::Maintenance, Screen::Scan), 1);
    assert_eq!(screen_step(Screen::MaintenancePreview, Screen::Scan), 3);
    assert_eq!(screen_step(Screen::Help, Screen::Select), 2);
    assert_eq!(screen_help_key(Screen::Select), "keys_select");
    assert_eq!(screen_help_key(Screen::Filter), "keys_filter");
    assert_eq!(screen_help_key(Screen::Maintenance), "keys_maintenance");
}

fn leftovers() -> Vec<MaintenanceCandidate> {
    vec![
        MaintenanceCandidate {
            key: "rollout:a".into(),
            kind: MaintenanceKind::UnreferencedRollout,
            label: "a".into(),
            detail: "/a".into(),
            project: None,
            bytes: 1,
            fingerprint: "a".into(),
        },
        MaintenanceCandidate {
            key: "edge:a:b".into(),
            kind: MaintenanceKind::StaleSpawnEdge,
            label: "a → b".into(),
            detail: "closed".into(),
            project: None,
            bytes: 0,
            fingerprint: "a:b:closed".into(),
        },
    ]
}

#[test]
fn maintenance_categories_toggle_without_text_input() {
    let candidates = leftovers();
    let mut selected = TextSet::new();
    toggle_maintenance_kind(
        &mut selected,
        &candidates,
        MaintenanceKind::UnreferencedRollout,
    );
    assert_eq!(selected, texts(&["rollout:a"]));
    toggle_maintenance_kind(
        &mut selected,
        &candidates,
        MaintenanceKind::UnreferencedRollout,
    );
    assert!(selected.is_empty());
}

#[test]
fn execution_progress_renders_real_phase_counts_and_percent() {
    let applying = ExecutionProgress {
        phase: ExecutionPhase::Applying,
        completed: 3,
        total: 4,
    };
    let rendered = execution_text(&zh(), Action::Archive, applying, 0).replace(' ', "");
    assert!(rendered.contains("正在执行状态变更"));
    assert!(rendered.contains("|正在执行状态变更"));
    assert_eq!(execution_percent(applying), 75);
    assert_eq!(execution_label_text(applying).replace(' ', ""), "3/4·75%");
    assert_eq!(zh().text("execution_wait"), "期间不会接受其他按键");

    let verifying = ExecutionProgress {
        phase: ExecutionPhase::Verifying,
        completed: 4,
        total: 4,
    };
    let rendered = execution_text(&zh(), Action::Archive, verifying, 1).replace(' ', "");
    assert!(rendered.contains("正在核验最终状态"));
    assert!(rendered.contains("/正在核验最终状态"));
    assert_eq!(execution_label_text(verifying).replace(' ', ""), "4/4·100%");
}

#[test]
fn delete_confirmation_input_stays_visible_below_a_long_preview() {
    let planned = (0..100)
        .map(|index| PlannedTree {
            root_id: format!("root-{index}"),
            signature: format!("signature-{index}"),
            node_ids: vec![format!("root-{index}")],
        })
        .collect::<Vec<_>>();
    let preview = OperationPreview {
        action: Action::Delete,
        trees: planned,
        impacted_count: 123,
        blocked: Vec::new(),
    };
    let mut state = new_state();
    state.screen = Screen::Preview;
    state.input = "12".into();
    let (title, line) = confirmation_page(&state, &preview);
    assert_eq!(title.replace(' ', ""), "永久删除确认");
    assert!(line_text(&line)
        .replace(' ', "")
        .contains("请输入“影响节点”数123:12_"));
    let page = preview_page(&state, &vec![], &preview, &None, 10);
    assert!(page.len() <= 110);
}

#[test]
fn preview_confirmation_queues_execution_for_the_progress_loop() {
    let mut service = scanned(selectable_snapshot());
    let preview = service.preview(&texts(&["one"]), Action::Archive);
    let mut state = new_state();
    state.screen = Screen::Preview;
    state.preview = Some(preview.clone());

    handle_key(key(KeyCode::Enter), 20, &mut state, &mut service);

    let pending = state.pending_execution.unwrap();
    assert_eq!(pending.preview, preview);
    assert_eq!(pending.confirmation, None);
    assert_eq!(state.screen, Screen::Preview);
}

#[test]
fn delete_confirmation_requires_the_affected_node_count_before_execution() {
    let preview = OperationPreview {
        action: Action::Delete,
        trees: vec![PlannedTree {
            root_id: "root".into(),
            signature: "signature".into(),
            node_ids: vec!["root".into(), "child".into()],
        }],
        impacted_count: 2,
        blocked: Vec::new(),
    };
    let mut service = scanned(selectable_snapshot());
    let mut state = new_state();
    state.screen = Screen::Preview;
    state.preview = Some(preview.clone());

    handle_key(key(KeyCode::Char('1')), 20, &mut state, &mut service);
    handle_key(key(KeyCode::Enter), 20, &mut state, &mut service);

    assert!(state.pending_execution.is_none());
    assert_eq!(state.screen, Screen::Preview);
    assert!(state.message.contains("影响节点"));
    assert!(state.message.contains('2'));

    handle_key(key(KeyCode::Backspace), 20, &mut state, &mut service);
    handle_key(key(KeyCode::Char('2')), 20, &mut state, &mut service);
    handle_key(key(KeyCode::Enter), 20, &mut state, &mut service);

    let pending = state.pending_execution.unwrap();
    assert_eq!(pending.preview, preview);
    assert_eq!(pending.confirmation, Some(2));
    assert!(state.message.is_empty());
}

#[test]
fn select_all_and_space_update_markers_counts_and_feedback() {
    let mut service = scanned(selectable_snapshot());
    let none = no_candidates();
    let mut state = new_state();
    state.screen = Screen::Select;
    state.choose_action(Action::Archive);

    handle_key(key(KeyCode::Char('A')), 30, &mut state, &mut service);
    assert_eq!(state.selected.len(), 2);
    assert!(state.message.contains("影响节点=2"));
    assert_eq!(selection_marker(&state.selected, "one"), "[x]");

    assert!(page_text(&header_page(&state, &facts(&service, &none))).contains("已选择=2"));
    assert!(select_title(&state, &facts(&service, &none))
        .replace(' ', "")
        .contains("选择·已选择2/2"));
    let rows = select_rows(&state, &facts(&service, &none), 10);
    assert_eq!(rows.iter().filter(|row| row.mark.contains("[x]")).count(), 2);

    handle_key(key(KeyCode::Char(' ')), 30, &mut state, &mut service);
    assert_eq!(state.selected.len(), 1);
    assert!(state.message.contains("已取消选择"));
    assert_eq!(selection_marker(&state.selected, "one"), "[ ]");
    assert!(select_title(&state, &facts(&service, &none))
        .replace(' ', "")
        .contains("选择·已选择1/2"));

    handle_key(
        Key {
            code: KeyCode::Char('a'),
            control: false,
            shift: true,
        },
        30,
        &mut state,
        &mut service,
    );
    assert_eq!(state.selected.len(), 2);
}

#[test]
fn result_scroll_reaches_both_ends_and_language_is_global() {
    let mut service = scanned(selectable_snapshot());
    let mut state = new_state();
    state.screen = Screen::Result;
    state.result = (0..30).map(|index| format!("result-{index}")).collect();

    for _ in 0..100 {
        handle_key(key(KeyCode::Down), 20, &mut state, &mut service);
    }
    assert_eq!(state.result_offset, 22);
    let (_, page) = result_page(&state, result_view_height(20));
    assert!(page_text(&page).contains("result-29"));

    handle_key(key(KeyCode::Up), 21, &mut state, &mut service);
    assert_eq!(state.result_offset, 20);
    let (_, page) = result_page(&state, result_view_height(21));
    assert!(page_text(&page).contains("result-20"));
    assert!(!page_text(&page).contains("result-29"));

    for _ in 0..100 {
        handle_key(key(KeyCode::Up), 20, &mut state, &mut service);
    }
    assert_eq!(state.result_offset, 0);
    let original = state.catalog.language();
    handle_key(key(KeyCode::Char('l')), 20, &mut state, &mut service);
    assert_ne!(state.catalog.language(), original);

    state.screen = Screen::History;
    let before_history = state.catalog.language();
    handle_key(key(KeyCode::Char('l')), 20, &mut state, &mut service);
    assert_ne!(state.catalog.language(), before_history);
}

#[test]
fn large_scope_summary_remains_complete() {
    let trees = (0..5_000)
        .map(|index| tree(&format!("tree-{index}"), false, vec![]))
        .collect::<Vec<_>>();
    let preview = OperationPreview {
        action: Action::Archive,
        trees: trees
            .iter()
            .map(|tree| PlannedTree {
                root_id: tree.root_id.clone(),
                signature: tree.signature(),
                node_ids: vec![tree.root_id.clone()],
            })
            .collect(),
        impacted_count: trees.len(),
        blocked: vec![],
    };
    let references = trees.iter().collect::<Vec<_>>();
    let summary = summarize_scope(&references, &preview, Action::Archive);
    assert_eq!(summary.matched, 5_000);
    assert_eq!(summary.eligible.len(), 5_000);
    assert_eq!(summary.impacted, 5_000);
}

#[test]
fn global_pin_failure_is_shown_once_instead_of_on_every_row() {
    let mut snapshot = selectable_snapshot();
    for node in &mut snapshot.nodes {
        node.pinned = None;
    }
    snapshot.write_capable = false;
    snapshot.diagnostics = vec!["pin fallback unavailable".into()];
    let service = scanned(snapshot);
    let none = no_candidates();
    let mut state = new_state();
    state.screen = Screen::Select;
    state.choose_action(Action::Archive);

    let rows = select_rows(&state, &facts(&service, &none), 10);
    let mut rendered = page_text(&header_page(&state, &facts(&service, &none)));
    for row in &rows {
        rendered.push_str(&row_cells(row, true, "01-01".into()).join(" "));
    }
    rendered.push_str(&page_text(&footer_page(&state, &service.diagnostics())));
    let rendered = rendered.replace(' ', "");
    assert_eq!(rendered.matches("pinfallbackunavailable").count(), 1);
    assert!(!rendered.contains("置顶状态未知"));
    assert!(!rendered.contains("缺少必要的app-server写入能力"));
}

#[test]
fn sizes_are_shown_as_one_decimal_of_a_binary_unit() {
    let float = |value: u64| {
        let units = ["B", "KiB", "MiB", "GiB", "TiB"];
        let mut size = value as f64;
        let mut unit = 0;
        while size >= 1024.0 && unit < units.len() - 1 {
            size /= 1024.0;
            unit += 1;
        }
        if unit == 0 {
            format!("{value} B")
        } else {
            format!("{size:.1} {}", units[unit])
        }
    };
    let mut samples = vec![
        0,
        1,
        1023,
        1024,
        1075,
        1076,
        1280,
        1792,
        1_048_575,
        1_048_576,
        1_310_720,
        12 * 1024 * 1024,
        u64::from(u32::MAX),
        1 << 40,
        (1 << 50) + (1 << 48),
        u64::MAX,
    ];
    for step in 1..400u64 {
        samples.push(step * step * step * 977);
        samples.push(step * 128);
    }
    for value in samples {
        assert_eq!(human_bytes(value), float(value));
    }
    assert_eq!(human_bytes(1280), "1.2 KiB");
    assert_eq!(human_bytes(1792), "1.8 KiB");
}

#[test]
fn widths_are_counted_in_columns() {
    assert_eq!(display_char_width('a'), 1);
    assert_eq!(display_char_width('会'), 2);
    assert_eq!(display_char_width('\u{1}'), 0);
    assert_eq!(display_width("a会"), 3);
    assert_eq!(fit_to_width("abc", 3), "abc");
    assert_eq!(fit_to_width("abcd", 3), "ab…");
    assert_eq!(fit_to_width("abcd", 0), "");
    assert_eq!(short_id("12345678-9abc"), "1234567…");
    assert_eq!(short_id("12345678"), "12345678");
}

#[test]
fn rings_step_back_and_forth() {
    assert_eq!(cycle_index(2, 3, true), 0);
    assert_eq!(cycle_index(0, 3, false), 2);
    assert_eq!(cycle_index(0, 0, true), 0);
    assert_eq!(cycle_index(cycle_index(1, 3, true), 3, false), 1);
}

#[test]
fn exit_and_select_all_keys_are_recognised() {
    assert!(is_exit_key(key(KeyCode::Char('q'))));
    assert!(is_exit_key(Key {
        code: KeyCode::Char('c'),
        control: true,
        shift: false,
    }));
    assert!(!is_exit_key(key(KeyCode::Char('c'))));
    assert!(is_select_all_key(key(KeyCode::Char('A'))));
    assert!(!is_select_all_key(key(KeyCode::Char('a'))));
}

#[test]
fn the_way_through_the_screens_leads_to_a_preview() {
    let mut service = scanned(selectable_snapshot());
    let mut state = new_state();
    assert_eq!(state.screen, Screen::Scan);
    handle_key(key(KeyCode::Enter), 30, &mut state, &mut service);
    assert_eq!(state.screen, Screen::Filter);
    handle_key(key(KeyCode::Enter), 30, &mut state, &mut service);
    assert_eq!(state.screen, Screen::Select);
    handle_key(key(KeyCode::Char('a')), 30, &mut state, &mut service);
    assert_eq!(state.action, Some(Action::Archive));
    handle_key(key(KeyCode::Char(' ')), 30, &mut state, &mut service);
    assert_eq!(state.selected.len(), 1);
    handle_key(key(KeyCode::Enter), 30, &mut state, &mut service);
    assert_eq!(state.screen, Screen::Preview);
    assert_eq!(state.preview.as_ref().unwrap().impacted_count, 1);
    handle_key(key(KeyCode::Esc), 30, &mut state, &mut service);
    assert_eq!(state.screen, Screen::Select);
    assert!(state.preview.is_none());
    assert!(handle_key(key(KeyCode::Char('q')), 30, &mut state, &mut service));
}

#[test]
fn a_new_filter_clears_the_selection_and_a_bad_date_is_told() {
    let mut service = scanned(selectable_snapshot());
    let mut state = new_state();
    state.screen = Screen::Filter;
    state.selected.insert("one".into());
    handle_key(key(KeyCode::Char('v')), 30, &mut state, &mut service);
    assert_eq!(state.filter.archived, Some(false));
    assert_eq!(state.preferences.archived, Some(false));
    assert!(state.selected.is_empty());

    handle_key(key(KeyCode::Char('c')), 30, &mut state, &mut service);
    assert_eq!(state.screen, Screen::CustomCutoff);
    for c in "1970-01-01T00:00:42Z".chars() {
        handle_key(key(KeyCode::Char(c)), 30, &mut state, &mut service);
    }
    assert!(page_text(&input_page(&state)).contains("1970-01-01T00:00:42Z_"));
    handle_key(key(KeyCode::Enter), 30, &mut state, &mut service);
    assert_eq!(state.filter.cutoff, Cutoff::Absolute(42));
    assert_eq!(state.screen, Screen::Filter);

    handle_key(key(KeyCode::Char('c')), 30, &mut state, &mut service);
    handle_key(key(KeyCode::Char('x')), 30, &mut state, &mut service);
    handle_key(key(KeyCode::Enter), 30, &mut state, &mut service);
    assert_eq!(state.screen, Screen::CustomCutoff);
    assert!(state.message.starts_with("invalid RFC3339: "));
}

#[test]
fn scans_and_runs_report_to_the_screen() {
    let mut state = new_state();
    state.selected.insert("one".into());
    assert!(state
        .take_scan(Err(VaultError::Unavailable("closed".into())), true)
        .is_err());
    assert!(state
        .take_scan(Err(VaultError::Unavailable("closed".into())), false)
        .is_ok());
    assert_eq!(state.message, "app-server unavailable: closed");
    assert!(state.take_scan(Ok(2), false).is_ok());
    assert_eq!(state.message, "2 trees");
    assert!(state.selected.is_empty());

    let mut items = TextMap::new();
    items.insert("a".to_owned(), ItemResult::Success);
    items.insert("b".to_owned(), ItemResult::Failed("no answer".into()));
    let result = OperationResult {
        batch_id: "batch-1".into(),
        action: Action::Archive,
        items,
        warnings: vec!["careful".into()],
    };
    let lines = operation_lines(&state.catalog, &result);
    assert!(lines.iter().any(|line| line.contains("batch-1")));
    assert!(lines.iter().any(|line| line.contains("no answer")));
    assert!(lines.iter().any(|line| line.contains("careful")));
    state.take_execution(&Ok(result));
    assert_eq!(state.screen, Screen::Result);
    assert_eq!(state.result, lines);
    state.take_maintenance(&Err(VaultError::StalePreview));
    assert_eq!(
        state.result,
        vec!["preview is stale; rescan and preview again"]
    );
    state.take_saved(&Err(VaultError::Storage("full".into())));
    assert_eq!(state.message, "local operation record unavailable: full");
    state.take_history(Ok(vec![HistoryEntry {
        batch_id: "batch-1".into(),
        created_at: 1,
        action: "archive".into(),
        planned_count: 2,
        status: "completed".into(),
    }]));
    assert_eq!(state.screen, Screen::History);
    assert!(page_text(&history_page(&state)).contains("batch-1"));
}

#[test]
fn pages_show_what_the_state_holds() {
    let service = scanned(selectable_snapshot());
    let left = leftovers();
    let mut state = new_state();
    let facts = facts(&service, &left);
    let scan = page_text(&scan_page(
        &state,
        &facts,
        &Some("user=me".into()),
        &vec!["a note".into()],
    ));
    assert!(scan.contains("user=me"));
    assert!(scan.contains("anote"));
    let filter = page_text(&filter_page(&state, &facts, &None));
    assert!(filter.contains("全部"));
    assert!(page_text(&help_page(&state.catalog)).contains("help_navigation"));
    assert!(page_text(&small_page(&state.catalog, 70, 10)).contains("70"));
    let head = page_text(&maintenance_head_page(&state, &left));
    assert!(head.contains('2'));
    let rows = maintenance_rows(&state, &left, 10, 80);
    assert_eq!(rows.len(), 2);
    assert!(page_text(&rows).contains("a→b"));
    let plan = service.maintenance_preview(&texts(&[]));
    assert!(!cleanup_page(&state, &plan, 20).is_empty());
    state.filter.cutoff = Cutoff::RollingDays(7);
    assert_eq!(cutoff_text(state.filter.cutoff, &None), "7d");
    assert_eq!(scan_progress_text(&state.catalog, 0).chars().next(), Some('|'));
    assert!(scan_pulse(3) <= 100);
}

#[test]
fn projects_are_offered_once_in_order() {
    let trees = vec![tree("b", false, vec![]), tree("a", false, vec![])];
    let options = project_options(&trees);
    assert_eq!(options[0], None);
    assert_eq!(choice_index(&options, &None), 0);
    assert_eq!(choice_index(&options, &Some("项目".into())), 1);
    assert_eq!(choice_index(&options, &Some("missing".into())), 0);
}

#[test]
fn progress_follows_the_events_of_an_operation() {
    let start = ExecutionProgress::start(2);
    assert_eq!((start.phase, start.completed, start.total), (ExecutionPhase::Validating, 0, 2));
    let scanned = start.take(ExecutionEvent::Scanning);
    assert_eq!(scanned.phase, ExecutionPhase::Validating);
    let changing = scanned.take(ExecutionEvent::Changing);
    assert_eq!((changing.phase, changing.completed), (ExecutionPhase::Applying, 0));
    let first = changing.take(ExecutionEvent::Changed);
    assert_eq!((first.phase, first.completed), (ExecutionPhase::Applying, 1));
    let all = first.take(ExecutionEvent::Changed).take(ExecutionEvent::Changed);
    assert_eq!((all.completed, all.total), (2, 2));
    let verifying = all.take(ExecutionEvent::Scanning);
    assert_eq!((verifying.phase, verifying.completed), (ExecutionPhase::Verifying, 2));
}
