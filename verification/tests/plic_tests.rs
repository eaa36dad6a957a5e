use lsd::plic::{plic_new, PLIC_MAX_CONTEXTS};

#[test]
fn enable_sets_the_documented_bit() {
    let mut p = plic_new();
    p.enable_int(1, 10);
    // bit 10 % 32 of word 10 / 32
    assert_eq!(p.enables[1][0], 1 << 10);
    p.enable_int(1, 37);
    assert_eq!(p.enables[1][1], 1 << 5);
    // other contexts untouched
    assert_eq!(p.enables[0][0], 0);
}

#[test]
fn disable_after_enable_restores_the_word() {
    let mut p = plic_new();
    let before = p.enables[3][0];
    p.enable_int(3, 10);
    p.disable_int(3, 10);
    assert_eq!(p.enables[3][0], before);
}

#[test]
fn out_of_range_arguments_change_nothing() {
    let mut p = plic_new();
    p.enable_int(PLIC_MAX_CONTEXTS, 10);
    p.enable_int(0, 1024);
    p.disable_int(PLIC_MAX_CONTEXTS, 10);
    for w in 0..32 {
        assert_eq!(p.enables[0][w], 0);
    }
}

#[test]
fn init_masks_and_zeroes() {
    let mut p = plic_new();
    p.set_priority(3, 5);
    p.enable_int(1, 3);
    p.threshold_and_claim(1, 6);
    p.init(11, 1);
    for s in 1..11 {
        assert_eq!(p.priorities[s], 0);
    }
    assert_eq!(p.enables[1][0], 0);
    assert_eq!(p.thresholds[1], 0);
}

#[test]
fn claim_prefers_the_higher_priority_source() {
    // the UART at priority 7 and another source at 1, both raised
    let mut p = plic_new();
    let ctx = 1;
    p.set_priority(10, 7);
    p.set_priority(7, 1);
    p.enable_int(ctx, 10);
    p.enable_int(ctx, 7);
    p.threshold_and_claim(ctx, 0);
    p.set_pending(7);
    p.set_pending(10);
    assert_eq!(p.next(ctx), Some(10));
    // the lower-priority source is still there afterwards
    assert_eq!(p.next(ctx), Some(7));
    assert_eq!(p.next(ctx), None);
}

#[test]
fn tie_goes_to_the_lowest_id() {
    let mut p = plic_new();
    let ctx = 1;
    p.set_priority(4, 3);
    p.set_priority(9, 3);
    p.enable_int(ctx, 4);
    p.enable_int(ctx, 9);
    p.set_pending(4);
    p.set_pending(9);
    assert_eq!(p.next(ctx), Some(4));
}

#[test]
fn claim_then_complete_round_trip() {
    let mut p = plic_new();
    let ctx = 1;
    p.set_priority(10, 7);
    p.enable_int(ctx, 10);
    p.set_pending(10);
    // claim takes the source and closes its gateway
    assert_eq!(p.next(ctx), Some(10));
    // without completion nothing is claimable, and the line's raise is lost
    p.set_pending(10);
    assert_eq!(p.next(ctx), None);
    // completion re-opens the gateway; a new raise is claimable again
    p.claim(ctx, 10);
    p.set_pending(10);
    assert_eq!(p.next(ctx), Some(10));
}

#[test]
fn masked_or_low_priority_sources_are_not_claimable() {
    let mut p = plic_new();
    let ctx = 1;
    // pending but masked
    p.set_priority(5, 7);
    p.set_pending(5);
    assert_eq!(p.next(ctx), None);
    // enabled but priority not above the threshold
    p.enable_int(ctx, 5);
    p.threshold_and_claim(ctx, 7);
    assert_eq!(p.next(ctx), None);
    // drop the threshold and it goes through
    p.threshold_and_claim(ctx, 6);
    assert_eq!(p.next(ctx), Some(5));
}

#[test]
fn pending_word_reads_back() {
    let mut p = plic_new();
    assert_eq!(p.pending(), 0);
    p.set_pending(3);
    assert_eq!(p.pending(), 1 << 3);
}

#[test]
fn completion_of_out_of_range_ids_changes_nothing() {
    let mut p = plic_new();
    let before = p.in_service.clone();
    p.claim(PLIC_MAX_CONTEXTS, 1);
    p.claim(0, 5000);
    assert_eq!(p.in_service, before);
}
