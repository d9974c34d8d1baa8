use tallytail::access_control::{access_denied_response, unlock_response, AccessGrant, WebBackEndError};
use tallytail::desktop::DesktopBackend;
use tallytail::lock::{DrawnPattern, LockPhase, LockScreen};
use tallytail::access_control::{
    determine_client_id, ensure_has_access, generate_access_token, hex_encode, normalize_pattern, AccessControl,
    AccessDenied, PatternError, UnlockAttemptResult, UnlockGuard, UnlockStep, ACCESS_GRANT_TTL_NANOS,
    ACCESS_GRANT_TTL_SECONDS, UNLOCK_BLOCK_SECONDS,
};

#[test]
fn normalizes_unlock_patterns() {
    assert_eq!(normalize_pattern("1-2-3 4,5,6").unwrap(), "123456");
    assert_eq!(normalize_pattern("12345"), Err(PatternError::TooFewPoints));
    assert_eq!(normalize_pattern("123450"), Err(PatternError::PointOutOfRange));
    assert_eq!(normalize_pattern("123451"), Err(PatternError::RepeatedPoint));
    assert_eq!(PatternError::TooFewPoints.message(), "Unlock pattern must contain at least 6 points");
}

#[test]
fn third_failed_attempt_blocks_for_three_hours() {
    let mut guard = UnlockGuard::new();
    assert!(guard.is_empty());
    assert!(matches!(guard.record_failed_attempt(1000), UnlockAttemptResult::PatternNotAccepted));
    assert!(matches!(guard.record_failed_attempt(1001), UnlockAttemptResult::PatternNotAccepted));
    assert!(matches!(guard.record_failed_attempt(1002), UnlockAttemptResult::TooManyAttempts));
    assert_eq!(guard.blocked_until, Some(1002 + UNLOCK_BLOCK_SECONDS));
    assert_eq!(UNLOCK_BLOCK_SECONDS, 3 * 60 * 60);
    assert!(guard.is_blocked(1002 + UNLOCK_BLOCK_SECONDS - 1));
    assert!(!guard.is_blocked(1002 + UNLOCK_BLOCK_SECONDS));
    assert!(!guard.clear_expired_block(1002 + UNLOCK_BLOCK_SECONDS - 1));
    assert!(guard.clear_expired_block(1002 + UNLOCK_BLOCK_SECONDS));
    assert!(guard.is_empty());
    guard.record_failed_attempt(5);
    guard.reset();
    assert!(guard.is_empty());
}

#[test]
fn decides_unlock_attempts_per_client() {
    let mut ac = AccessControl::new("1 2 3 4 5 6".to_string()).ok().unwrap();
    let alice = "10.0.0.1".to_string();
    let bob = "10.0.0.2".to_string();
    assert!(ac.pattern_matches("123456"));
    assert!(!ac.pattern_matches("654321"));
    assert_eq!(ac.decide_unlock(&alice, false, 100), UnlockStep::NotAccepted);
    assert_eq!(ac.decide_unlock(&alice, false, 101), UnlockStep::NotAccepted);
    assert_eq!(ac.decide_unlock(&alice, false, 102), UnlockStep::TooManyAttempts);
    assert_eq!(ac.decide_unlock(&alice, true, 103), UnlockStep::Blocked);
    assert_eq!(ac.decide_unlock(&bob, true, 103), UnlockStep::Accepted);
    assert_eq!(ac.decide_unlock(&alice, true, 102 + UNLOCK_BLOCK_SECONDS), UnlockStep::Accepted);
    assert!(ac.unlock_guard_entries().is_empty());
}

#[test]
fn unlock_opens_a_session_for_the_right_pattern() {
    let mut ac = AccessControl::new("123456".to_string()).ok().unwrap();
    let client = "client".to_string();
    let (result, save) = ac.unlock(&client, "1,2,3,4,5,6", 50, 1_000);
    assert!(save);
    let token = match result {
        UnlockAttemptResult::Unlocked(grant) => {
            assert_eq!(grant.expires_in_seconds, ACCESS_GRANT_TTL_SECONDS);
            assert_eq!(grant.access_token.len(), 64);
            assert!(grant.access_token.chars().all(|c| c.is_ascii_digit() || ('a'..='f').contains(&c)));
            grant.access_token
        }
        other => panic!("unexpected {other:?}"),
    };
    assert!(ac.has_access(Some(&token), 1_000 + ACCESS_GRANT_TTL_NANOS - 1));
    assert_eq!(ensure_has_access(&mut ac, Some(&token), 2_000), Ok(()));
    assert_eq!(ensure_has_access(&mut ac, None, 2_000), Err(AccessDenied::UnlockRequired));
    assert_eq!(AccessDenied::UnlockRequired.message(), "Unlock required");
    assert!(!ac.has_access(Some(&token), 1_000 + ACCESS_GRANT_TTL_NANOS));
    assert!(!ac.has_access(Some(&"other".to_string()), 1_500));
}

#[test]
fn unlock_refuses_wrong_patterns_and_blocked_clients() {
    let mut ac = AccessControl::new("123456".to_string()).ok().unwrap();
    let client = "client".to_string();
    assert!(matches!(ac.unlock(&client, "111111", 10, 0), (UnlockAttemptResult::PatternNotAccepted, true)));
    assert!(matches!(ac.unlock(&client, "12", 11, 0), (UnlockAttemptResult::PatternNotAccepted, true)));
    assert!(matches!(ac.unlock(&client, "654321", 12, 0), (UnlockAttemptResult::TooManyAttempts, true)));
    assert!(matches!(ac.unlock(&client, "123456", 13, 0), (UnlockAttemptResult::TooManyAttempts, false)));
    let entries = ac.unlock_guard_entries();
    assert_eq!(entries.len(), 1);
    assert_eq!(entries[0].1.blocked_until, Some(12 + UNLOCK_BLOCK_SECONDS));
}

#[test]
fn determines_the_client_id() {
    assert_eq!(determine_client_id(Some(" 1.2.3.4 "), Some("5.6.7.8")), "1.2.3.4");
    assert_eq!(determine_client_id(None, Some(" 5.6.7.8 , 9.9.9.9")), "5.6.7.8");
    assert_eq!(determine_client_id(Some(" "), None), "unknown-client");
}

#[test]
fn encodes_tokens_as_lower_hex() {
    assert_eq!(hex_encode(&vec![0x00, 0xab, 0x7f, 0xff]), "00ab7fff");
    let token = generate_access_token();
    assert_eq!(token.len(), 64);
    assert!(token.chars().all(|c| c.is_ascii_hexdigit() && !c.is_ascii_uppercase()));
    assert_ne!(token, generate_access_token());
}

#[test]
fn answers_unlock_attempts_with_status_codes() {
    let grant = AccessGrant { access_token: "t".to_string(), expires_in_seconds: ACCESS_GRANT_TTL_SECONDS };
    assert_eq!(unlock_response(UnlockAttemptResult::Unlocked(grant)).ok().unwrap().access_token, "t");
    let e = unlock_response(UnlockAttemptResult::PatternNotAccepted).err().unwrap();
    assert_eq!((e.status, e.message.as_str()), (401, "Pattern not accepted"));
    let e = unlock_response(UnlockAttemptResult::TooManyAttempts).err().unwrap();
    assert_eq!((e.status, e.message.as_str()), (423, "Too many attempts, access blocked"));
    let e = access_denied_response(AccessDenied::UnlockRequired);
    assert_eq!((e.status, e.message.as_str()), (401, "Unlock required"));
    assert_eq!(WebBackEndError::internal("disk full".to_string()).status, 500);
}

#[test]
fn drawn_patterns_touch_each_point_once() {
    let mut p = DrawnPattern::new();
    for point in [1, 2, 2, 3, 6, 3, 9, 8] {
        p.touch(point);
    }
    assert_eq!(p.pattern_text(), "123698");
    p.clear();
    assert_eq!(p.pattern_text(), "");
}

#[test]
fn the_desktop_back_end_refuses_unlocking() {
    assert_eq!(DesktopBackend.unlock().err().unwrap(), "Unlock is only available in the web app");
}

#[test]
fn lock_screen_sends_the_drawn_pattern_and_opens_on_acceptance() {
    let mut screen = LockScreen::new();
    assert_eq!(screen.status_label(), "Draw unlock pattern");
    screen.drag_started();
    for point in [1u8, 2, 2, 3, 6, 9, 8] {
        screen.dragged_over(point);
    }
    assert_eq!(screen.drag_stopped(), Some("123698".to_string()));
    assert_eq!(screen.phase, LockPhase::Unlocking);
    assert_eq!(screen.status_label(), "Unlocking...");
    screen.dragged_over(4);
    assert_eq!(screen.drag_stopped(), None);
    assert!(screen.poll_unlock(Ok(())));
    assert!(!screen.has_backend);
    screen.app_opened(Ok(()));
    assert_eq!(screen.phase, LockPhase::Unlocked);
}

#[test]
fn lock_screen_locks_again_on_refusal_and_without_back_end() {
    let mut screen = LockScreen::new();
    screen.dragged_over(5);
    assert_eq!(screen.start_unlock(), Some("5".to_string()));
    assert!(!screen.poll_unlock(Err("Unlock pattern was not accepted".to_string())));
    assert_eq!(screen.phase, LockPhase::Locked);
    assert_eq!(screen.message.as_deref(), Some("Unlock pattern was not accepted"));
    screen.drag_started();
    assert_eq!(screen.message, None);
    assert_eq!(screen.start_unlock(), Some(String::new()));
    assert!(screen.poll_unlock(Ok(())));
    screen.app_opened(Err("Could not load assets".to_string()));
    assert_eq!(screen.phase, LockPhase::Locked);
    assert_eq!(screen.start_unlock(), None);
    assert_eq!(screen.message.as_deref(), Some("Unlock backend is not available"));
}

#[test]
fn a_block_survives_a_new_instance_loaded_with_the_saved_guards() {
    let mut ac = AccessControl::new("123456".to_string()).ok().unwrap();
    let client = "203.0.113.7".to_string();
    for now in [100u64, 101, 102] {
        ac.unlock(&client, "654321", now, now);
    }
    let saved = ac.unlock_guard_entries();
    let mut reloaded = AccessControl::new("123456".to_string()).ok().unwrap();
    reloaded.set_unlock_guards(saved);
    let (result, save) = reloaded.unlock(&client, "123456", 102 + UNLOCK_BLOCK_SECONDS - 1, 5_000);
    assert!(matches!(result, UnlockAttemptResult::TooManyAttempts));
    assert!(!save);
    let (result, _) = reloaded.unlock(&client, "123456", 102 + UNLOCK_BLOCK_SECONDS, 6_000);
    assert!(matches!(result, UnlockAttemptResult::Unlocked(_)));
}

#[test]
fn a_token_opens_later_requests_until_it_expires() {
    let mut ac = AccessControl::new("123456".to_string()).ok().unwrap();
    let token = match ac.unlock(&"a".to_string(), "123456", 10, 1_000).0 {
        UnlockAttemptResult::Unlocked(grant) => grant.access_token,
        other => panic!("unexpected {other:?}"),
    };
    ac.unlock(&"b".to_string(), "123456", 11, 2_000);
    assert!(!ac.has_access(Some(&"unknown".to_string()), 3_000));
    assert_eq!(ensure_has_access(&mut ac, Some(&token), 1_000 + ACCESS_GRANT_TTL_NANOS - 1), Ok(()));
    assert_eq!(
        ensure_has_access(&mut ac, Some(&token), 1_000 + ACCESS_GRANT_TTL_NANOS),
        Err(AccessDenied::UnlockRequired)
    );
}

#[test]
fn a_checked_request_drops_the_sessions_that_ran_out() {
    let mut ac = AccessControl::new("123456".to_string()).ok().unwrap();
    let first = match ac.unlock(&"a".to_string(), "123456", 10, 0).0 {
        UnlockAttemptResult::Unlocked(grant) => grant.access_token,
        other => panic!("unexpected {other:?}"),
    };
    let second = match ac.unlock(&"b".to_string(), "123456", 11, ACCESS_GRANT_TTL_NANOS).0 {
        UnlockAttemptResult::Unlocked(grant) => grant.access_token,
        other => panic!("unexpected {other:?}"),
    };
    assert_eq!(ensure_has_access(&mut ac, Some(&second), ACCESS_GRANT_TTL_NANOS), Ok(()));
    assert_eq!(ensure_has_access(&mut ac, Some(&first), ACCESS_GRANT_TTL_NANOS - 1), Err(AccessDenied::UnlockRequired));
    assert_eq!(ensure_has_access(&mut ac, Some(&"made-up".to_string()), 1), Err(AccessDenied::UnlockRequired));
}
