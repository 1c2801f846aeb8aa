use constrained_chat::token::{Canidate, Canidates, Mask};

fn c(token_id: u32, probability: u64, logit: i64) -> Canidate {
    Canidate { token_id, probability, logit }
}

fn ids(v: &[Canidate]) -> Vec<u32> {
    v.iter().map(|x| x.token_id).collect()
}

#[test]
fn construct_sorts_by_probability() {
    let set = Canidates::new(vec![c(0, 10, 99), c(1, 50, 1), c(2, 30, 50)]);
    let top = set.top_n(3);
    assert_eq!(ids(&top), vec![1, 2, 0]);
    assert_eq!(set.total_mass(), 90);
}

#[test]
fn top_n_clamps_and_orders() {
    let set = Canidates::new(vec![c(0, 10, 0), c(1, 50, 0), c(2, 30, 0)]);
    assert_eq!(set.top_n(2).len(), 2);
    assert_eq!(set.top_n(3).len(), 3);
    assert_eq!(set.top_n(10).len(), 3);
    assert_eq!(set.top_n(0).len(), 0);
    let top = set.top_n(10);
    for i in 1..top.len() {
        assert!(top[i - 1].probability >= top[i].probability);
    }
}

#[test]
fn rank_by_logit_is_idempotent() {
    let mut set = Canidates::new(vec![c(0, 10, 5), c(1, 50, -3), c(2, 30, 40), c(3, 30, 40)]);
    set.rank_by_logit();
    let once = ids(&set.top_n(4));
    set.rank_by_logit();
    let twice = ids(&set.top_n(4));
    assert_eq!(once, twice);
    assert_eq!(once[0], 2);
    let top = set.top_n(4);
    for i in 1..top.len() {
        assert!(top[i - 1].logit >= top[i].logit);
    }
}

#[test]
fn rank_by_probability_restores_default_order() {
    let mut set = Canidates::new(vec![c(0, 10, 99), c(1, 50, 1)]);
    set.rank_by_logit();
    assert_eq!(ids(&set.top_n(2)), vec![0, 1]);
    set.rank_by_probability();
    assert_eq!(ids(&set.top_n(2)), vec![1, 0]);
}

#[test]
fn constrain_keeps_only_allowed_and_renormalizes() {
    let mut set = Canidates::new(vec![c(0, 40, 4), c(1, 30, 3), c(2, 20, 2), c(3, 10, 1)]);
    assert_eq!(set.total_mass(), 100);
    // allow tokens 1 and 3 only
    let mask = Mask::from_flags(vec![false, true, false, true]);
    set.constrain(&mask);
    let top = set.top_n(10);
    assert_eq!(ids(&top), vec![1, 3]);
    for x in &top {
        assert!(mask.allows(x.token_id));
    }
    // the new denominator is the survivors' mass: 30/40 + 10/40 == 1 exactly
    assert_eq!(set.total_mass(), 40);
    assert_eq!(top.iter().map(|x| x.probability).sum::<u64>(), set.total_mass());
}

#[test]
fn constrain_disallows_tokens_beyond_mask() {
    let mut set = Canidates::new(vec![c(7, 40, 4), c(1, 30, 3)]);
    let mask = Mask::from_flags(vec![false, true]);
    set.constrain(&mask);
    assert_eq!(ids(&set.top_n(10)), vec![1]);
}

#[test]
fn constrain_empty_survivors_is_distinct_and_finite() {
    let mut set = Canidates::new(vec![c(0, 40, 4), c(1, 30, 3)]);
    let mask = Mask::from_flags(vec![false, false]);
    set.constrain(&mask);
    assert!(set.is_empty());
    assert_eq!(set.len(), 0);
    assert_eq!(set.total_mass(), 0);
    assert_eq!(set.top_n(5).len(), 0);
}

#[test]
fn masked_selection_prefers_highest_survivor() {
    // "samples" (0) outranks everything; masking to {0, 1} must select 0
    let mut set = Canidates::new(vec![
        c(0, 500, 50),
        c(1, 200, 20),
        c(2, 900, 90),
        c(3, 100, 10),
    ]);
    set.rank_by_logit();
    let mask = Mask::from_flags(vec![true, true, false, false]);
    set.constrain(&mask);
    let top = set.top_n(1);
    assert_eq!(top.len(), 1);
    assert_eq!(top[0].token_id, 0);
}

#[test]
fn duplicate_preserves_order_and_mass() {
    let set = Canidates::new(vec![c(0, 10, 5), c(1, 50, -3)]);
    let copy = set.duplicate();
    assert_eq!(ids(&copy.top_n(2)), ids(&set.top_n(2)));
    assert_eq!(copy.total_mass(), set.total_mass());
}
