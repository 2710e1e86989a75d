use bot_core::roulette::bet_outcome;
use bot_core::roulette::Roulette;

#[test]
fn wheel_has_all_pockets_in_order() {
    let w = Roulette::new();
    assert_eq!(w.numbers.len(), 37);
    for (i, n) in w.numbers.iter().enumerate() {
        assert_eq!(*n, i as i32);
    }
}

#[test]
fn spin_stays_on_the_wheel() {
    let w = Roulette::new();
    for _ in 0..200 {
        let r = w.spin();
        assert!(0 <= r && r < 37);
    }
}

#[test]
fn bet_outcome_win_pays_36_to_1() {
    assert_eq!(bet_outcome(17, 17, 5), (true, 180));
    assert_eq!(bet_outcome(0, 0, 1), (true, 36));
}

#[test]
fn bet_outcome_loss_pays_nothing() {
    assert_eq!(bet_outcome(16, 17, 5), (false, 0));
    assert_eq!(bet_outcome(36, 0, 100), (false, 0));
}

#[test]
fn bet_pays_by_the_rule() {
    let w = Roulette::new();
    for _ in 0..200 {
        let (won, amount) = w.bet(7, 10);
        if won {
            assert_eq!(amount, 360);
        } else {
            assert_eq!(amount, 0);
        }
    }
}

#[test]
fn bet_off_the_wheel_never_wins() {
    let w = Roulette::new();
    for _ in 0..50 {
        assert_eq!(w.bet(50, 10), (false, 0));
        assert_eq!(w.bet(-1, 10), (false, 0));
    }
}
