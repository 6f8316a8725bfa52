//! Tests of the orchestration decisions: attachment tallying, the poll
//! decision, and degraded-mode behaviour when attachments fail.

use ltrace_bcc::codec::encode_record;
use ltrace_bcc::orchestrate::handle_event;
use ltrace_bcc::orchestrate::should_poll;
use ltrace_bcc::orchestrate::tally_attached;

#[test]
fn tally_counts_successes() {
    assert_eq!(tally_attached(&vec![]), 0);
    assert_eq!(tally_attached(&vec![false, false]), 0);
    assert_eq!(tally_attached(&vec![true, false, true]), 2);
    assert_eq!(tally_attached(&vec![true, true, true]), 3);
}

#[test]
fn poll_requires_at_least_one_attachment() {
    assert!(!should_poll(0));
    assert!(should_poll(1));
    assert!(should_poll(3));
}

#[test]
fn one_failed_attachment_among_three_still_polls_and_decodes() {
    // Three probes, the middle attachment fails: the tracer tallies two
    // successes, decides to poll, and decodes the events of the two
    // attached functions as usual.
    let outcomes = vec![true, false, true];
    let attached = tally_attached(&outcomes);
    assert_eq!(attached, 2);
    assert!(should_poll(attached));
    let first = encode_record(b"open", b"/etc/hosts", 140, 0, 438);
    let third = encode_record(b"close", b"", 3, 0, 0);
    assert_eq!(handle_event(&first).unwrap(), "open(140 [/etc/hosts],0,438)");
    assert_eq!(handle_event(&third).unwrap(), "close(3 [],0,0)");
}

#[test]
fn all_attachments_failed_means_no_polling() {
    let outcomes = vec![false, false, false];
    assert!(!should_poll(tally_attached(&outcomes)));
}
