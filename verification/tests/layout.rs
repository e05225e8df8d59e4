use batty_team::layout::{
    build_layout, build_zones_auto, build_zones_from_config, launch_orchestrator_pane,
    orchestrator_tail_command, shell_single_quote, should_launch_orchestrator_pane,
    split_members_into_columns, split_off_current_member_pct, split_zone_subgroups, LayoutConfig,
    LayoutPlan, LayoutStep, OrchestratorPosition, SplitDef, WorkflowMode, ZoneDef, ZonePlan,
};
use batty_team::ratio::{clamped, percent_of};
use batty_team::team::{MemberInstance, RoleType};

fn member(name: &str, role_name: &str, role_type: RoleType, reports_to: Option<&str>) -> MemberInstance {
    MemberInstance {
        name: name.to_string(),
        role_name: role_name.to_string(),
        role_type,
        agent: Some("codex".to_string()),
        prompt: None,
        reports_to: reports_to.map(|s| s.to_string()),
        use_worktrees: false,
    }
}

fn architect(name: &str) -> MemberInstance {
    member(name, name, RoleType::Architect, None)
}

fn manager(name: &str, role_name: &str) -> MemberInstance {
    member(name, role_name, RoleType::Manager, Some("architect"))
}

fn engineer(name: &str, role_name: &str, boss: &str) -> MemberInstance {
    member(name, role_name, RoleType::Engineer, Some(boss))
}

/// An architect, two managers, and three engineers for each.
fn nine() -> Vec<MemberInstance> {
    let mut members = vec![
        architect("architect"),
        manager("manager-1", "manager"),
        manager("manager-2", "manager"),
    ];
    for m in 1..3 {
        for e in 1..4 {
            members.push(engineer(&format!("eng-{m}-{e}"), "engineer", &format!("manager-{m}")));
        }
    }
    members
}

fn zone(name: &str, width_pct: u32, columns: Option<u32>) -> ZoneDef {
    ZoneDef {
        name: name.to_string(),
        width_pct,
        split: columns.map(|horizontal| SplitDef { horizontal }),
    }
}

fn names<'a>(members: &'a [MemberInstance], zone: &ZonePlan) -> Vec<&'a str> {
    zone.members.iter().map(|i| members[*i].name.as_str()).collect()
}

/// How many panes a plan makes of one.
fn pane_count(plan: &LayoutPlan) -> usize {
    1 + plan
        .steps
        .iter()
        .filter(|s| matches!(s, LayoutStep::SplitRight { .. } | LayoutStep::SplitDown { .. }))
        .count()
}

/// The seats of a plan: pane and member.
fn seats(plan: &LayoutPlan) -> Vec<(usize, String)> {
    plan.steps
        .iter()
        .filter_map(|s| match s {
            LayoutStep::Seat { pane, member } => Some((*pane, plan.names[*member].clone())),
            _ => None,
        })
        .collect()
}

#[test]
fn auto_zones_group_by_role() {
    let zones = build_zones_auto(&nine());
    assert_eq!(zones.len(), 3);
    assert_eq!(zones[0].members.len(), 1); // architect
    assert_eq!(zones[1].members.len(), 2); // managers
    assert_eq!(zones[2].members.len(), 6); // engineers (2 managers × 3 each)
    let widths: Vec<u32> = zones.iter().map(|z| z.width_pct).collect();
    assert_eq!(widths, vec![11, 22, 66]);
}

#[test]
fn config_zones_assign_members() {
    let members = vec![
        architect("architect"),
        manager("manager", "manager"),
        engineer("eng-1-1", "engineer", "manager"),
        engineer("eng-1-2", "engineer", "manager"),
        engineer("eng-1-3", "engineer", "manager"),
    ];
    let layout = LayoutConfig {
        zones: vec![
            zone("architect", 20, None),
            zone("managers", 30, None),
            zone("engineers", 50, None),
        ],
    };
    let zones = build_zones_from_config(&layout, &members);
    assert_eq!(zones.len(), 3);
    assert_eq!(members[zones[0].members[0]].role_type, RoleType::Architect);
    assert_eq!(members[zones[1].members[0]].role_type, RoleType::Manager);
    assert_eq!(zones[2].members.len(), 3);
}

#[test]
fn split_percentages_preserve_equal_zone_stack() {
    let splits: Vec<_> = (2..=6).map(split_off_current_member_pct).collect();
    assert_eq!(splits, vec![50, 33, 25, 20, 17]);
}

#[test]
fn split_percentages_round_to_the_nearest() {
    for slots in 1..1000usize {
        let expected = (((1.0 / slots as f64) * 100.0).round() as u32).clamp(10, 90);
        assert_eq!(split_off_current_member_pct(slots), expected);
    }
}

#[test]
fn shares_are_those_of_floating_point() {
    for whole in 1..=400u32 {
        for part in 0..=whole {
            let expected = ((part as f64 / whole as f64) * 100.0).round() as u64;
            assert_eq!(percent_of(part, whole), expected, "{part} of {whole}");
        }
    }
    for (part, whole) in [(1, u32::MAX), (u32::MAX - 1, u32::MAX), (123_456_789, 987_654_321)] {
        let expected = ((part as f64 / whole as f64) * 100.0).round() as u64;
        assert_eq!(percent_of(part, whole), expected);
    }
    assert_eq!((clamped(3), clamped(50), clamped(97)), (10, 50, 90));
}

#[test]
fn build_layout_supports_architect_two_managers_and_six_engineers() {
    let layout = Some(LayoutConfig {
        zones: vec![
            zone("architect", 15, None),
            zone("managers", 25, Some(2)),
            zone("engineers", 60, Some(6)),
        ],
    });
    let plan = build_layout(&nine(), &layout, WorkflowMode::Legacy, true).unwrap();
    assert_eq!(seats(&plan).len(), 9);
    assert_eq!(pane_count(&plan), 9);
    assert!(!plan.orchestrator);
    // Everybody sits in a pane of their own.
    let mut panes: Vec<usize> = seats(&plan).iter().map(|s| s.0).collect();
    panes.sort();
    assert_eq!(panes, (0..9).collect::<Vec<usize>>());
}

#[test]
fn auto_zones_single_role_type_produces_one_zone() {
    let members: Vec<_> = (1..5)
        .map(|i| engineer(&format!("eng-{i}"), "engineer", "human"))
        .collect();
    let zones = build_zones_auto(&members);
    assert_eq!(zones.len(), 1);
    assert_eq!(zones[0].members.len(), 4);
}

#[test]
fn split_zone_subgroups_groups_engineers_by_manager() {
    let members = vec![
        manager("manager-1", "manager"),
        manager("manager-2", "manager"),
        engineer("eng-1-1", "engineer", "manager-1"),
        engineer("eng-1-2", "engineer", "manager-1"),
        engineer("eng-2-1", "engineer", "manager-2"),
        engineer("eng-2-2", "engineer", "manager-2"),
    ];
    let subgroups = split_zone_subgroups(&members, &vec![2, 3, 4, 5]);
    assert_eq!(subgroups.len(), 2);
    assert_eq!(subgroups[0].len(), 2);
    assert_eq!(subgroups[1].len(), 2);
    // Each subgroup should share the same reports_to
    for group in &subgroups {
        let parent = members[group[0]].reports_to.as_ref().unwrap();
        assert!(group
            .iter()
            .all(|m| members[*m].reports_to.as_ref().unwrap() == parent));
    }
}

#[test]
fn config_zones_unplaced_members_go_to_last_zone() {
    let members = vec![
        architect("architect"),
        manager("manager", "manager"),
        engineer("eng-1-1", "engineer", "manager"),
        engineer("eng-1-2", "engineer", "manager"),
    ];
    // Only define one zone: everything else should end up there
    let layout = LayoutConfig {
        zones: vec![zone("architect", 100, None)],
    };
    let zones = build_zones_from_config(&layout, &members);
    // Architect zone gets architect + leftover manager/engineers
    assert_eq!(zones.len(), 1);
    assert_eq!(zones[0].members.len(), 4); // 1 arch + 1 mgr + 2 eng
}

#[test]
fn config_zones_exact_manager_role_collects_direct_reports() {
    let members = vec![
        architect("architect"),
        architect("scientist"),
        manager("black-lead", "black-lead"),
        manager("red-lead", "red-lead"),
        engineer("black-eng-1-1", "black-eng", "black-lead"),
        engineer("black-eng-1-2", "black-eng", "black-lead"),
        engineer("red-eng-1-1", "red-eng", "red-lead"),
        engineer("red-eng-1-2", "red-eng", "red-lead"),
    ];
    let layout = LayoutConfig {
        zones: vec![
            zone("scientist", 10, None),
            zone("architect", 10, None),
            zone("black-lead", 40, None),
            zone("red-lead", 40, None),
        ],
    };
    let zones = build_zones_from_config(&layout, &members);
    assert_eq!(zones.len(), 4);
    assert_eq!(names(&members, &zones[0]), vec!["scientist"]);
    assert_eq!(names(&members, &zones[1]), vec!["architect"]);
    assert_eq!(
        names(&members, &zones[2]),
        vec!["black-lead", "black-eng-1-1", "black-eng-1-2"]
    );
    assert_eq!(
        names(&members, &zones[3]),
        vec!["red-lead", "red-eng-1-1", "red-eng-1-2"]
    );
}

#[test]
fn workflow_mode_controls_orchestrator_pane_launch() {
    assert!(!should_launch_orchestrator_pane(WorkflowMode::Legacy, true));
    assert!(should_launch_orchestrator_pane(WorkflowMode::Hybrid, true));
    assert!(should_launch_orchestrator_pane(
        WorkflowMode::WorkflowFirst,
        true,
    ));
    assert!(!should_launch_orchestrator_pane(
        WorkflowMode::Hybrid,
        false
    ));
}

fn pair() -> Vec<MemberInstance> {
    vec![architect("architect"), engineer("engineer", "engineer", "architect")]
}

#[test]
fn build_layout_adds_orchestrator_pane_when_enabled() {
    let plan = build_layout(&pair(), &None, WorkflowMode::Hybrid, true).unwrap();
    assert_eq!(seats(&plan).len(), 2);
    assert!(plan.orchestrator);
    assert_eq!(pane_count(&plan), 2);

    let below = launch_orchestrator_pane(OrchestratorPosition::Bottom);
    assert!(!below.to_the_right && !below.new_pane_is_for_agents);
    assert_eq!(below.pct, 20);
    let left = launch_orchestrator_pane(OrchestratorPosition::Left);
    assert!(left.to_the_right && left.new_pane_is_for_agents);
    assert_eq!(left.pct, 80);
}

#[test]
fn build_layout_skips_orchestrator_pane_when_disabled() {
    let plan = build_layout(&pair(), &None, WorkflowMode::Hybrid, false).unwrap();
    assert_eq!(seats(&plan).len(), 2);
    assert!(!plan.orchestrator);
    assert_eq!(pane_count(&plan), 2);
}

#[test]
fn build_layout_needs_somebody_to_seat() {
    let user = member("human", "human", RoleType::User, None);
    let error = build_layout(&vec![user], &None, WorkflowMode::Legacy, true)
        .err()
        .unwrap();
    assert_eq!(error, "no pane members to create layout for");
}

#[test]
fn split_members_into_columns_balances_contiguous_groups() {
    let columns = split_members_into_columns(&vec![0, 1, 2, 3, 4], 2);
    assert_eq!(columns.len(), 2);
    assert_eq!(columns[0].len(), 3);
    assert_eq!(columns[1].len(), 2);
    assert_eq!(columns[0][0], 0);
    assert_eq!(columns[1][0], 3);
}

#[test]
fn columns_are_no_more_than_members() {
    assert_eq!(split_members_into_columns(&vec![7, 8], 5), vec![vec![7], vec![8]]);
    assert_eq!(split_members_into_columns(&vec![7, 8], 0), vec![vec![7, 8]]);
    assert_eq!(
        split_members_into_columns(&vec![0, 1, 2, 3, 4, 5, 6], 3),
        vec![vec![0, 1, 2], vec![3, 4], vec![5, 6]]
    );
}

#[test]
fn build_layout_honors_horizontal_split_for_architect_zone() {
    let members = vec![architect("architect"), architect("scientist")];
    let layout = Some(LayoutConfig {
        zones: vec![zone("architect", 100, Some(2))],
    });
    let plan = build_layout(&members, &layout, WorkflowMode::Legacy, true).unwrap();
    assert_eq!(seats(&plan).len(), 2);
    // Side by side, with aligned top edges.
    assert_eq!(pane_count(&plan), 2);
    assert!(plan.steps.iter().any(|s| matches!(s, LayoutStep::SplitRight { .. })));
    assert!(!plan.steps.iter().any(|s| matches!(s, LayoutStep::SplitDown { .. })));
}

#[test]
fn the_log_command_quotes_its_path() {
    assert_eq!(shell_single_quote("a'b"), "a'\"'\"'b");
    assert_eq!(
        orchestrator_tail_command("/p/o.log"),
        "bash -lc 'touch /p/o.log; exec tail -n 200 -F /p/o.log'"
    );
    assert!(orchestrator_tail_command("/p/it's.log").contains("it'\"'\"'s.log"));
}

#[test]
fn everybody_gets_a_pane_of_their_own() {
    let one = vec![engineer("eng-1", "engineer", "manager")];
    for members in [one, nine()] {
        let config = LayoutConfig {
            zones: vec![zone("architect", 20, None), zone("engineers", 80, Some(3))],
        };
        for layout in [None, Some(config)] {
            let plan = build_layout(&members, &layout, WorkflowMode::Legacy, false).unwrap();
            let mut panes: Vec<usize> = seats(&plan).iter().map(|s| s.0).collect();
            let mut seated: Vec<String> = seats(&plan).into_iter().map(|s| s.1).collect();
            let mut names: Vec<String> = members.iter().map(|m| m.name.clone()).collect();
            panes.sort();
            seated.sort();
            names.sort();
            assert_eq!(panes, (0..members.len()).collect::<Vec<usize>>());
            assert_eq!(seated, names);
        }
    }
}
