use sagent::ids::TurnId;
use sagent::recovery::{RecoveredToolCall, RecoveryAction, RecoveryPlan, StartupRecovery};

fn plan(turn_id: TurnId, ids: &[&str]) -> RecoveryPlan {
    RecoveryPlan {
        turn_id,
        unresolved_tools: ids
            .iter()
            .map(|id| RecoveredToolCall {
                call_id: (*id).to_owned(),
                name: "terminal".to_owned(),
                error_kind: "runtime_restarted_unknown",
                message: "Runtime 重启时工具执行结果未知，未自动重试",
            })
            .collect(),
    }
}

fn written_call(action: &RecoveryAction) -> &str {
    match action {
        RecoveryAction::WriteResult(result) => result.call_id.as_str(),
        other => panic!("expected a result to write, got {other:?}"),
    }
}

#[test]
fn an_unreadable_recovery_is_published() {
    let (run, action) = StartupRecovery::begin(Err("磁盘错误".to_owned()));
    assert!(run.is_none());
    assert_eq!(
        action,
        RecoveryAction::Publish {
            turn_id: None,
            reason: "读取重启恢复状态失败：磁盘错误".to_owned()
        }
    );
}

#[test]
fn nothing_running_means_nothing_to_recover() {
    let (run, action) = StartupRecovery::begin(Ok(None));
    assert!(run.is_none());
    assert_eq!(action, RecoveryAction::Done);
}

#[test]
fn results_are_written_in_order_then_the_turn_is_closed() {
    let turn = TurnId::new();
    let (run, action) = StartupRecovery::begin(Ok(Some(plan(turn, &["a", "b"]))));
    let mut run = run.unwrap();
    assert_eq!(written_call(&action), "a");
    if let RecoveryAction::WriteResult(result) = &action {
        assert!(!result.ok);
        assert_eq!(result.error_kind.as_deref(), Some("runtime_restarted_unknown"));
    }
    assert_eq!(written_call(&run.advance(Ok(()))), "b");
    assert_eq!(
        run.advance(Ok(())),
        RecoveryAction::CloseTurn {
            turn_id: turn,
            category: "runtime_restarted",
            reason: "Runtime 重启导致未完成 Turn 安全终止".to_owned()
        }
    );
    assert_eq!(
        run.advance(Ok(())),
        RecoveryAction::Publish {
            turn_id: Some(turn),
            reason: "Runtime 重启导致未完成 Turn 安全终止".to_owned()
        }
    );
    assert_eq!(run.advance(Ok(())), RecoveryAction::Done);
}

#[test]
fn the_first_failed_write_ends_recovery() {
    let turn = TurnId::new();
    let (run, _) = StartupRecovery::begin(Ok(Some(plan(turn, &["a", "b"]))));
    let mut run = run.unwrap();
    assert_eq!(
        run.advance(Err("locked".to_owned())),
        RecoveryAction::Publish {
            turn_id: Some(turn),
            reason: "写入重启恢复结果失败：locked".to_owned()
        }
    );
    assert_eq!(run.advance(Ok(())), RecoveryAction::Done);

    let (run, action) = StartupRecovery::begin(Ok(Some(plan(turn, &[]))));
    let mut run = run.unwrap();
    assert!(matches!(action, RecoveryAction::CloseTurn { .. }));
    assert_eq!(
        run.advance(Err("full".to_owned())),
        RecoveryAction::Publish {
            turn_id: Some(turn),
            reason: "写入重启终态失败：full".to_owned()
        }
    );
}
