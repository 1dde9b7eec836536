use std::collections::HashSet;

use monopoly::cards::{CardEffect, Deck};
use monopoly::rng::RngSource;

struct SeqRng {
    vals: Vec<u32>,
    i: usize,
}

impl RngSource for SeqRng {
    fn next_below(&mut self, bound: u32) -> u32 {
        let v = self.vals[self.i % self.vals.len()];
        self.i += 1;
        v % bound
    }
}

#[test]
fn deck_draw_cycles_and_empty_is_safe() {
    let mut d = Deck::chance();
    assert_eq!(d.len(), 10);
    for _ in 0..100 {
        assert!(d.draw().is_some());
    }

    let mut empty = Deck::new(vec![]);
    assert!(empty.draw().is_none());
    assert_eq!(empty.remaining(), 0);
    assert!(empty.is_empty());
}

#[test]
fn deck_covers_all_cards_with_text() {
    let mut d = Deck::chance();
    let mut ids = HashSet::new();
    for _ in 0..d.len() {
        let c = d.draw().unwrap();
        ids.insert(c.id);
        assert!(!c.text.is_empty());
    }
    assert_eq!(ids.len(), 10, "抽一轮应覆盖全部 10 张卡");

    let mut f = Deck::fate();
    let mut ids = HashSet::new();
    for _ in 0..f.len() {
        ids.insert(f.draw().unwrap().id);
    }
    assert_eq!(ids.len(), 10);
}

#[test]
fn fresh_deck_draws_in_order_then_wraps() {
    let mut d = Deck::chance();
    assert_eq!(d.remaining(), 10);
    let first = d.draw().unwrap();
    assert_eq!(first.id, 1);
    assert_eq!(first.effect, CardEffect::MoveTo(0));
    assert_eq!(d.remaining(), 9);
    for _ in 0..9 {
        d.draw().unwrap();
    }
    assert_eq!(d.draw_index(), 0);
    assert_eq!(d.draw().unwrap().id, 1);
}

#[test]
fn shuffle_keeps_every_card_and_restarts() {
    let mut d = Deck::fate();
    d.draw();
    d.shuffle(&mut SeqRng { vals: vec![3, 1, 4, 1, 5, 9, 2, 6, 5], i: 0 });
    assert_eq!(d.draw_index(), 0);
    let mut order = d.order_clone();
    order.sort();
    assert_eq!(order, (0..10).collect::<Vec<usize>>());
}

#[test]
fn restore_ignores_order_of_wrong_length() {
    let mut d = Deck::chance();
    d.restore(&vec![1, 2], 1);
    assert_eq!(d.order_clone(), (0..10).collect::<Vec<usize>>());
    assert_eq!(d.draw_index(), 0);
    let order: Vec<usize> = (0..10).rev().collect();
    d.restore(&order, 3);
    assert_eq!(d.order_clone(), order);
    assert_eq!(d.draw().unwrap().id, 7);
}
