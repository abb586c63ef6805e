use illium::provider::{Provider, Refresh};

#[test]
fn applet_busy_actions_are_bounded_and_ordered() {
    let mut provider = Provider::busy();
    assert_eq!(provider.refresh(None), Refresh::Skipped);
    assert!(provider.pending().is_empty());
    for i in 0..12 {
        let expected = if i < 8 { Refresh::Queued } else { Refresh::Dropped };
        assert_eq!(provider.refresh(Some(i.to_string())), expected);
    }
    assert_eq!(provider.pending().len(), 8);
    assert_eq!(provider.pending().first().unwrap(), "0");
    assert_eq!(provider.pending().last().unwrap(), "7");
}

#[test]
fn applet_stale_provider_results_do_not_clear_a_new_worker() {
    let mut provider = Provider::busy();
    assert_eq!(provider.finish(1, 2), None);
    assert!(provider.running());
    assert_eq!(provider.finish(2, 2), Some(None));
    assert!(!provider.running());
}

#[test]
fn waiting_actions_run_in_order_after_each_result() {
    let mut provider = Provider::new();
    assert_eq!(provider.refresh(Some("scan".into())), Refresh::Start(Some("scan".into())));
    assert_eq!(provider.refresh(Some("connect".into())), Refresh::Queued);
    assert_eq!(provider.refresh(Some("forget".into())), Refresh::Queued);
    assert_eq!(provider.finish(3, 3), Some(Some("connect".into())));
    assert_eq!(provider.refresh(Some("connect".into())), Refresh::Start(Some("connect".into())));
    assert_eq!(provider.finish(3, 3), Some(Some("forget".into())));
    assert_eq!(provider.refresh(None), Refresh::Start(None));
    assert_eq!(provider.finish(3, 3), Some(None));
}
