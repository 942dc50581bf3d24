use price_prediction::ledger::{assert_is_admin, Ledger};
use price_prediction::settlement::{
    compute_burn_fee, compute_gaming_fee, compute_round_close, compute_round_open, round_end,
    settle_bet,
};
use price_prediction::types::{
    BetInfo, Config, ContractError, Direction, FinishedRound, LiveRound, NextRound, PartialConfig,
    WalletInfo, NANOS_PER_SECOND, RATIO_ONE,
};

const SECOND: u64 = NANOS_PER_SECOND;

fn config(seconds: u128, burn_fee: u128, gaming_fee: u128) -> Config {
    Config {
        next_round_seconds: seconds,
        fast_oracle_addr: "fast_oracle".to_string(),
        minimum_bet: 1,
        burn_fee,
        gaming_fee,
        token_addr: "token_contract".to_string(),
    }
}

fn owner() -> Option<String> {
    Some("owner".to_string())
}

fn s(text: &str) -> String {
    text.to_string()
}

fn half() -> u128 {
    RATIO_ONE / 2
}

/// Opens the first bidding round at `now` seconds and returns the market.
fn opened_market(cfg: Config, now: u64) -> Ledger {
    let mut market = Ledger::new(cfg);
    market.advance_round(now * SECOND, 0).unwrap();
    market
}

#[test]
fn test_bet() {
    let mut market = Ledger::new(config(600, 100, 200));
    let mut now: u64 = 0;
    let mut price: u128 = 1_000_000;

    now += 600;
    market.advance_round(now * SECOND, price).unwrap();
    assert_eq!(market.status().bidding_round.unwrap().id, 0);

    let r1 = market.place_bet(s("user1"), 0, Direction::Bear, 100, now * SECOND).unwrap();
    let r2 = market.place_bet(s("user2"), 0, Direction::Bull, 50, now * SECOND).unwrap();
    assert_eq!((r1.burn_fee, r1.gaming_fee, r1.amount, r1.custody_amount), (1, 2, 97, 99));
    assert_eq!((r2.burn_fee, r2.gaming_fee, r2.amount, r2.custody_amount), (0, 1, 49, 50));

    now += 600;
    market.advance_round(now * SECOND, price).unwrap();
    price = 100000;
    now += 600;
    market.advance_round(now * SECOND, price).unwrap();
    let round0 = market.finished_round(0).unwrap();
    assert_eq!(round0.winner, Some(Direction::Bear));
    assert_eq!(market.status().bidding_round.unwrap().id, 2);

    market.place_bet(s("user1"), 2, Direction::Bear, 100, now * SECOND).unwrap();
    market.place_bet(s("user2"), 2, Direction::Bull, 50, now * SECOND).unwrap();

    now += 600;
    market.advance_round(now * SECOND, price).unwrap();
    price = 200000;
    now += 600;
    market.advance_round(now * SECOND, price).unwrap();
    assert_eq!(market.finished_round(1).unwrap().winner, None);
    assert_eq!(market.finished_round(2).unwrap().winner, Some(Direction::Bull));

    let pending1 = market.pending_reward(&s("user1")).unwrap();
    let pending2 = market.pending_reward(&s("user2")).unwrap();
    assert_eq!(pending1.pending_reward, 146);
    assert_eq!(pending2.pending_reward, 146);

    assert_eq!(market.collect_winnings(&s("user1")), Ok(146));
    assert_eq!(market.collect_winnings(&s("user2")), Ok(146));

    assert_eq!(market.accumulated_fee(), 6);
    let wallets = vec![
        WalletInfo { address: s("admin1"), ratio: half() },
        WalletInfo { address: s("admin2"), ratio: half() },
    ];
    let shares = market.distribute_fund(&s("owner"), &owner(), &wallets).unwrap();
    assert_eq!(shares.len(), 2);
    assert_eq!((shares[0].address.as_str(), shares[0].amount), ("admin1", 3));
    assert_eq!((shares[1].address.as_str(), shares[1].amount), ("admin2", 3));
    assert_eq!(market.accumulated_fee(), 0);
}

#[test]
fn bull_win_pays_pro_rata_and_loser_has_nothing_to_claim() {
    let mut market = opened_market(config(600, 0, 0), 0);
    let bidding = market.status().bidding_round.unwrap();
    assert_eq!(bidding.open_time, 600 * SECOND);
    market.place_bet(s("a"), 0, Direction::Bull, 100, 0).unwrap();
    market.place_bet(s("b"), 0, Direction::Bear, 50, 0).unwrap();
    market.advance_round(600 * SECOND, 1000).unwrap();
    let live = market.status().live_round.unwrap();
    assert_eq!((live.id, live.open_price, live.close_time), (0, 1000, 1200 * SECOND));
    let report = market.advance_round(1200 * SECOND, 1100).unwrap();
    let settled = report.closed.unwrap();
    assert_eq!(settled.winner, Some(Direction::Bull));
    assert_eq!(settled.id, 0);

    let bet_a = BetInfo { player: s("a"), round_id: 0, amount: 100, direction: Direction::Bull };
    let bet_b = BetInfo { player: s("b"), round_id: 0, amount: 50, direction: Direction::Bear };
    assert_eq!(settle_bet(&settled, &bet_a), 150);
    assert_eq!(settle_bet(&settled, &bet_b), 0);

    assert_eq!(market.collect_winnings(&s("a")), Ok(150));
    assert!(market.my_game_list(&s("a"), None, None).my_game_list.is_empty());
    assert_eq!(market.collect_winnings(&s("b")), Err(ContractError::NothingToClaim));
    assert_eq!(market.my_game_list(&s("b"), None, None).my_game_list, vec![bet_b]);
}

#[test]
fn distribution_with_ratios_summing_to_one_splits_evenly() {
    let mut market = opened_market(config(600, 0, 1000), 0);
    market.place_bet(s("a"), 0, Direction::Bull, 200, 0).unwrap();
    assert_eq!(market.accumulated_fee(), 20);
    let wallets = vec![
        WalletInfo { address: s("w1"), ratio: half() },
        WalletInfo { address: s("w2"), ratio: half() },
    ];
    let shares = market.distribute_fund(&s("owner"), &owner(), &wallets).unwrap();
    assert_eq!(shares[0].amount, 10);
    assert_eq!(shares[1].amount, 10);
    assert_eq!(shares[1].address, "w2");
    assert_eq!(market.accumulated_fee(), 0);
}

#[test]
fn distribution_with_ratios_not_summing_to_one_changes_nothing() {
    let mut market = opened_market(config(600, 0, 1000), 0);
    market.place_bet(s("a"), 0, Direction::Bull, 200, 0).unwrap();
    let wallets = vec![
        WalletInfo { address: s("w1"), ratio: half() },
        WalletInfo { address: s("w2"), ratio: RATIO_ONE / 10 * 4 },
    ];
    assert_eq!(
        market.distribute_fund(&s("owner"), &owner(), &wallets),
        Err(ContractError::WrongRatio)
    );
    assert_eq!(market.accumulated_fee(), 20);
    let too_much = vec![
        WalletInfo { address: s("w1"), ratio: RATIO_ONE },
        WalletInfo { address: s("w2"), ratio: u128::MAX },
    ];
    assert_eq!(
        market.distribute_fund(&s("owner"), &owner(), &too_much),
        Err(ContractError::WrongRatio)
    );
    assert_eq!(
        market.distribute_fund(&s("owner"), &owner(), &vec![]),
        Err(ContractError::WrongRatio)
    );
    assert_eq!(market.accumulated_fee(), 20);
}

#[test]
fn distribution_rounds_shares_down() {
    let mut market = opened_market(config(600, 0, 1000), 0);
    market.place_bet(s("a"), 0, Direction::Bull, 70, 0).unwrap();
    assert_eq!(market.accumulated_fee(), 7);
    let third = RATIO_ONE / 3;
    let wallets = vec![
        WalletInfo { address: s("w1"), ratio: third },
        WalletInfo { address: s("w2"), ratio: RATIO_ONE - third },
    ];
    let shares = market.distribute_fund(&s("owner"), &owner(), &wallets).unwrap();
    assert_eq!(shares[0].amount, 2);
    assert_eq!(shares[1].amount, 4);
}

#[test]
fn distribution_requires_admin() {
    let mut market = opened_market(config(600, 0, 1000), 0);
    market.place_bet(s("a"), 0, Direction::Bull, 200, 0).unwrap();
    let wallets = vec![WalletInfo { address: s("w1"), ratio: RATIO_ONE }];
    assert_eq!(
        market.distribute_fund(&s("a"), &owner(), &wallets),
        Err(ContractError::Unauthorized)
    );
    assert_eq!(
        market.distribute_fund(&s("owner"), &None, &wallets),
        Err(ContractError::Unauthorized)
    );
    assert_eq!(market.accumulated_fee(), 20);
}

#[test]
fn second_collection_finds_nothing_to_claim() {
    let mut market = opened_market(config(600, 0, 0), 0);
    market.place_bet(s("a"), 0, Direction::Bull, 10, 0).unwrap();
    market.place_bet(s("b"), 0, Direction::Bear, 30, 0).unwrap();
    market.advance_round(600 * SECOND, 5).unwrap();
    market.advance_round(1200 * SECOND, 6).unwrap();
    assert_eq!(market.collect_winnings(&s("a")), Ok(40));
    assert_eq!(market.collect_winnings(&s("a")), Err(ContractError::NothingToClaim));
    assert_eq!(market.pending_reward(&s("a")).unwrap().pending_reward, 0);
}

#[test]
fn pools_equal_the_recorded_net_stakes() {
    let mut market = opened_market(config(600, 100, 200), 0);
    let mut staked: u128 = 0;
    for (player, dir, gross) in [
        ("a", Direction::Bull, 1000u128),
        ("b", Direction::Bear, 333),
        ("c", Direction::Bull, 77),
        ("d", Direction::Bear, 5),
    ] {
        let receipt = market.place_bet(s(player), 0, dir, gross, 0).unwrap();
        staked += receipt.amount;
    }
    let bidding = market.status().bidding_round.unwrap();
    assert_eq!(bidding.bull_amount + bidding.bear_amount, staked);
    assert_eq!(bidding.bull_amount, 970 + 76);
    assert_eq!(bidding.bear_amount, 324 + 5);
    market.advance_round(600 * SECOND, 1).unwrap();
    let report = market.advance_round(1200 * SECOND, 2).unwrap();
    let settled = report.closed.unwrap();
    assert_eq!(settled.bull_amount + settled.bear_amount, staked);
}

#[test]
fn winners_share_the_pool_pro_rata_rounding_down() {
    let mut market = opened_market(config(600, 0, 0), 0);
    for player in ["a", "b", "c"] {
        market.place_bet(s(player), 0, Direction::Bull, 1, 0).unwrap();
    }
    market.place_bet(s("d"), 0, Direction::Bear, 1, 0).unwrap();
    market.advance_round(600 * SECOND, 10).unwrap();
    market.advance_round(1200 * SECOND, 11).unwrap();
    let mut paid: u128 = 0;
    for player in ["a", "b", "c"] {
        let got = market.collect_winnings(&s(player)).unwrap();
        assert_eq!(got, 1);
        paid += got;
    }
    assert!(paid <= 4);
    assert_eq!(market.collect_winnings(&s("d")), Err(ContractError::NothingToClaim));
}

#[test]
fn winning_share_uses_the_winning_side_total() {
    let round = FinishedRound {
        id: 3,
        bid_time: 0,
        open_time: 1,
        close_time: 2,
        open_price: 10,
        close_price: 9,
        winner: Some(Direction::Bear),
        bull_amount: 70,
        bear_amount: 30,
    };
    let bet = BetInfo { player: s("p"), round_id: 3, amount: 20, direction: Direction::Bear };
    assert_eq!(settle_bet(&round, &bet), 66);
    let loser = BetInfo { player: s("q"), round_id: 3, amount: 70, direction: Direction::Bull };
    assert_eq!(settle_bet(&round, &loser), 0);
}

#[test]
fn one_sided_round_refunds_every_stake() {
    let mut market = opened_market(config(600, 0, 0), 0);
    market.place_bet(s("a"), 0, Direction::Bull, 40, 0).unwrap();
    market.place_bet(s("b"), 0, Direction::Bull, 60, 0).unwrap();
    market.advance_round(600 * SECOND, 10).unwrap();
    let settled = market.advance_round(1200 * SECOND, 1).unwrap().closed.unwrap();
    assert_eq!(settled.winner, Some(Direction::Bear));
    assert_eq!(market.collect_winnings(&s("a")), Ok(40));
    assert_eq!(market.collect_winnings(&s("b")), Ok(60));
}

#[test]
fn tied_round_refunds_every_stake() {
    let mut market = opened_market(config(600, 0, 0), 0);
    market.place_bet(s("a"), 0, Direction::Bull, 40, 0).unwrap();
    market.place_bet(s("b"), 0, Direction::Bear, 60, 0).unwrap();
    market.advance_round(600 * SECOND, 10).unwrap();
    let settled = market.advance_round(1200 * SECOND, 10).unwrap().closed.unwrap();
    assert_eq!(settled.winner, None);
    assert_eq!(market.collect_winnings(&s("a")), Ok(40));
    assert_eq!(market.collect_winnings(&s("b")), Ok(60));
}

#[test]
fn rounds_advance_one_at_a_time_with_increasing_ids() {
    let mut market = Ledger::new(config(600, 0, 0));
    let first = market.advance_round(0, 7).unwrap();
    assert_eq!(first.bidding_opened, Some(0));
    assert_eq!(first.closed, None);
    assert_eq!(first.opened, None);

    let early = market.advance_round(599 * SECOND, 7).unwrap();
    assert_eq!((early.closed, early.opened, early.bidding_opened), (None, None, None));

    let promote = market.advance_round(600 * SECOND, 7).unwrap();
    assert_eq!(promote.opened.unwrap().id, 0);
    assert_eq!(promote.bidding_opened, Some(1));
    let status = market.status();
    let live = status.live_round.unwrap();
    let bidding = status.bidding_round.unwrap();
    assert_eq!(bidding.open_time, live.close_time);
    assert_eq!(bidding.close_time, live.close_time + 600 * SECOND);

    let idle = market.advance_round(900 * SECOND, 7).unwrap();
    assert_eq!((idle.closed, idle.opened, idle.bidding_opened), (None, None, None));

    let both = market.advance_round(1200 * SECOND, 8).unwrap();
    assert_eq!(both.closed.unwrap().id, 0);
    assert_eq!(both.opened.unwrap().id, 1);
    assert_eq!(both.bidding_opened, Some(2));
    assert_eq!(market.finished_round(0).unwrap().close_price, 8);
    assert_eq!(market.finished_round(1), Err(ContractError::NotFound));

    let late = market.advance_round(5000 * SECOND, 9).unwrap();
    assert_eq!(late.closed.unwrap().id, 1);
    assert_eq!(late.opened.unwrap().id, 2);
    assert_eq!(late.bidding_opened, Some(3));
    let live = market.status().live_round.unwrap();
    assert_eq!((live.open_time, live.close_time), (5000 * SECOND, 5600 * SECOND));
}

#[test]
fn live_round_must_close_before_the_next_goes_live() {
    let mut market = opened_market(config(600, 0, 0), 0);
    market.advance_round(600 * SECOND, 1).unwrap();
    let cfg = PartialConfig {
        next_round_seconds: Some(100),
        fast_oracle_addr: None,
        minimum_bet: None,
        burn_fee: None,
        gaming_fee: None,
        token_addr: None,
    };
    market.update_config(&s("owner"), &owner(), cfg).unwrap();
    let report = market.advance_round(1199 * SECOND, 1).unwrap();
    assert_eq!((report.closed, report.opened), (None, None));
    assert_eq!(market.status().live_round.unwrap().id, 0);
}

#[test]
fn paused_market_refuses_bets_and_advances() {
    let mut market = opened_market(config(600, 0, 0), 0);
    assert_eq!(
        market.update_hault(&s("someone"), &owner(), true),
        Err(ContractError::Unauthorized)
    );
    market.update_hault(&s("owner"), &owner(), true).unwrap();
    assert!(market.is_haulted());
    assert_eq!(
        market.place_bet(s("a"), 0, Direction::Bull, 10, 0),
        Err(ContractError::Paused)
    );
    assert_eq!(market.advance_round(600 * SECOND, 1), Err(ContractError::Paused));
    assert_eq!(market.assert_not_haulted(), Err(ContractError::Paused));
    market.update_hault(&s("owner"), &owner(), false).unwrap();
    assert!(market.place_bet(s("a"), 0, Direction::Bull, 10, 0).is_ok());
}

#[test]
fn bets_are_refused_on_other_rounds_after_the_window_and_twice() {
    let mut market = Ledger::new(config(600, 0, 0));
    assert_eq!(
        market.place_bet(s("a"), 0, Direction::Bull, 10, 0),
        Err(ContractError::WrongRound)
    );
    market.advance_round(0, 1).unwrap();
    assert_eq!(
        market.place_bet(s("a"), 1, Direction::Bull, 10, 0),
        Err(ContractError::WrongRound)
    );
    assert_eq!(
        market.place_bet(s("a"), 0, Direction::Bull, 10, 600 * SECOND + 1),
        Err(ContractError::BiddingClosed)
    );
    assert!(market.place_bet(s("a"), 0, Direction::Bull, 10, 600 * SECOND).is_ok());
    assert_eq!(
        market.place_bet(s("a"), 0, Direction::Bear, 10, 0),
        Err(ContractError::AlreadyBet)
    );
    assert_eq!(market.status().bidding_round.unwrap().bull_amount, 10);
}

#[test]
fn fees_above_the_bet_are_an_overflow() {
    let mut market = opened_market(config(600, 6000, 6000), 0);
    assert_eq!(
        market.place_bet(s("a"), 0, Direction::Bull, 100, 0),
        Err(ContractError::Overflow)
    );
    assert_eq!(market.accumulated_fee(), 0);
    let mut huge = opened_market(config(600, u128::MAX, 0), 0);
    assert_eq!(
        huge.place_bet(s("a"), 0, Direction::Bull, u128::MAX, 0),
        Err(ContractError::Overflow)
    );
}

#[test]
fn pool_overflow_is_refused() {
    let mut market = opened_market(config(600, 0, 0), 0);
    market.place_bet(s("a"), 0, Direction::Bull, u128::MAX - 5, 0).unwrap();
    assert_eq!(
        market.place_bet(s("b"), 0, Direction::Bear, 6, 0),
        Err(ContractError::Overflow)
    );
    assert!(market.place_bet(s("b"), 0, Direction::Bear, 5, 0).is_ok());
}

#[test]
fn round_length_that_leaves_the_time_range_is_an_overflow() {
    let mut market = Ledger::new(config(u128::from(u64::MAX), 0, 0));
    assert_eq!(market.advance_round(0, 1), Err(ContractError::Overflow));
    assert_eq!(market.status().bidding_round, None);
    let mut late = Ledger::new(config(600, 0, 0));
    assert_eq!(late.advance_round(u64::MAX - 1000 * SECOND, 1), Err(ContractError::Overflow));
}

#[test]
fn fee_formulas() {
    let cfg = config(600, 100, 200);
    assert_eq!(compute_burn_fee(&cfg, 1000), Ok(10));
    assert_eq!(compute_gaming_fee(&cfg, 1000), Ok(20));
    assert_eq!(compute_burn_fee(&cfg, 99), Ok(0));
    assert_eq!(compute_gaming_fee(&cfg, 12345), Ok(246));
    let big = config(600, u128::MAX, u128::MAX);
    assert_eq!(compute_burn_fee(&big, u128::MAX), Err(ContractError::Overflow));
    assert_eq!(compute_burn_fee(&big, 10000), Ok(u128::MAX));
}

#[test]
fn round_times() {
    let cfg = config(600, 0, 0);
    assert_eq!(round_end(&cfg, 5), Ok(5 + 600 * SECOND));
    assert_eq!(round_end(&cfg, u64::MAX), Err(ContractError::Overflow));
    let next = NextRound {
        id: 4,
        bid_time: 1,
        open_time: 2,
        close_time: 3,
        bull_amount: 8,
        bear_amount: 9,
    };
    let live = compute_round_open(&next, 10 * SECOND, 77, &cfg).unwrap();
    assert_eq!(
        live,
        LiveRound {
            id: 4,
            bid_time: 1,
            open_time: 10 * SECOND,
            close_time: 610 * SECOND,
            open_price: 77,
            bull_amount: 8,
            bear_amount: 9,
        }
    );
    assert_eq!(compute_round_close(&live, 78).winner, Some(Direction::Bull));
    assert_eq!(compute_round_close(&live, 76).winner, Some(Direction::Bear));
    assert_eq!(compute_round_close(&live, 77).winner, None);
    assert_eq!(compute_round_close(&live, 78).close_time, 610 * SECOND);
}

#[test]
fn collection_keeps_bets_on_unsettled_rounds() {
    let mut market = opened_market(config(600, 0, 0), 0);
    market.place_bet(s("a"), 0, Direction::Bull, 10, 0).unwrap();
    market.advance_round(600 * SECOND, 1).unwrap();
    market.place_bet(s("a"), 1, Direction::Bear, 20, 600 * SECOND).unwrap();
    market.advance_round(1200 * SECOND, 2).unwrap();
    assert_eq!(market.collect_winnings(&s("a")), Ok(10));
    let left = market.my_game_list(&s("a"), None, None).my_game_list;
    assert_eq!(left.len(), 1);
    assert_eq!((left[0].round_id, left[0].amount), (1, 20));
    let position = market.my_current_position(&s("a"));
    assert_eq!((position.live_bear_amount, position.live_bull_amount), (20, 0));
}

#[test]
fn current_position_reports_bidding_and_live_stakes() {
    let mut market = opened_market(config(600, 0, 0), 0);
    market.place_bet(s("a"), 0, Direction::Bull, 10, 0).unwrap();
    market.advance_round(600 * SECOND, 1).unwrap();
    market.place_bet(s("a"), 1, Direction::Bear, 20, 600 * SECOND).unwrap();
    let position = market.my_current_position(&s("a"));
    assert_eq!(position.live_bull_amount, 10);
    assert_eq!(position.live_bear_amount, 0);
    assert_eq!(position.next_bull_amount, 0);
    assert_eq!(position.next_bear_amount, 20);
    let other = market.my_current_position(&s("b"));
    assert_eq!(other.live_bull_amount + other.next_bear_amount, 0);
}

#[test]
fn game_list_pages_by_round() {
    let mut market = opened_market(config(600, 0, 0), 0);
    let mut now: u64 = 0;
    for round in 0u128..5 {
        market.place_bet(s("a"), round, Direction::Bull, 1 + round, now * SECOND).unwrap();
        market.place_bet(s("b"), round, Direction::Bear, 1, now * SECOND).unwrap();
        now += 600;
        market.advance_round(now * SECOND, 1).unwrap();
    }
    let all = market.my_game_list(&s("a"), None, None).my_game_list;
    let ids: Vec<u128> = all.iter().map(|b| b.round_id).collect();
    assert_eq!(ids, vec![0, 1, 2, 3, 4]);
    let first = market.my_game_list(&s("a"), None, Some(2)).my_game_list;
    assert_eq!(first.iter().map(|b| b.round_id).collect::<Vec<_>>(), vec![ids[0], ids[1]]);
    let next = market.my_game_list(&s("a"), Some(ids[1]), Some(2)).my_game_list;
    assert_eq!(next[0].round_id, ids[2]);
    assert!(next.iter().all(|b| b.player == "a"));
    let capped = market.my_game_list(&s("a"), None, Some(1000)).my_game_list;
    assert_eq!(capped.len(), all.len());
}

#[test]
fn config_update_replaces_only_given_fields() {
    let mut market = Ledger::new(config(600, 100, 200));
    let update = PartialConfig {
        next_round_seconds: None,
        fast_oracle_addr: Some(s("new_oracle")),
        minimum_bet: None,
        burn_fee: Some(50),
        gaming_fee: None,
        token_addr: None,
    };
    assert_eq!(
        market.update_config(&s("intruder"), &owner(), update.clone()),
        Err(ContractError::Unauthorized)
    );
    assert_eq!(market.config().burn_fee, 100);
    market.update_config(&s("owner"), &owner(), update).unwrap();
    let cfg = market.config();
    assert_eq!(cfg.next_round_seconds, 600);
    assert_eq!(cfg.fast_oracle_addr, "new_oracle");
    assert_eq!(cfg.burn_fee, 50);
    assert_eq!(cfg.gaming_fee, 200);
    assert_eq!(cfg.token_addr, "token_contract");
}

#[test]
fn admin_check() {
    assert_eq!(assert_is_admin(&s("owner"), &owner()), Ok(()));
    assert_eq!(assert_is_admin(&s("other"), &owner()), Err(ContractError::Unauthorized));
    assert_eq!(assert_is_admin(&s(""), &None), Err(ContractError::Unauthorized));
}

#[test]
fn direction_names() {
    assert_eq!(Direction::Bull.to_string(), "bull");
    assert_eq!(Direction::Bear.to_string(), "bear");
}

#[test]
fn pending_reward_overflow_is_an_error() {
    let mut market = opened_market(config(1, 0, 0), 0);
    let mut now: u64 = 0;
    for round in 0u128..3 {
        market.place_bet(s("a"), round, Direction::Bull, u128::MAX / 2, now * SECOND).unwrap();
        now += 1;
        market.advance_round(now * SECOND, 1).unwrap();
    }
    now += 1;
    market.advance_round(now * SECOND, 1).unwrap();
    now += 1;
    market.advance_round(now * SECOND, 1).unwrap();
    assert_eq!(market.pending_reward(&s("a")), Err(ContractError::Overflow));
    assert_eq!(market.collect_winnings(&s("a")), Err(ContractError::Overflow));
}

#[test]
fn stored_parts_restore_the_market_and_broken_parts_are_refused() {
    let mut market = opened_market(config(600, 0, 0), 0);
    market.place_bet(s("a"), 0, Direction::Bull, 10, 0).unwrap();
    let restored = Ledger::from_parts(market.into_parts()).unwrap();
    assert_eq!(restored.status().bidding_round.unwrap().bull_amount, 10);

    let mut pool_off = restored.into_parts();
    pool_off.next_round.as_mut().unwrap().bull_amount = 11;
    assert!(Ledger::from_parts(pool_off).is_none());

    let mut market = opened_market(config(600, 0, 0), 0);
    market.place_bet(s("a"), 0, Direction::Bull, 10, 0).unwrap();
    let mut twice = market.into_parts();
    twice.bets.push(BetInfo { player: s("a"), round_id: 0, amount: 0, direction: Direction::Bear });
    assert!(Ledger::from_parts(twice).is_none());

    let mut market = opened_market(config(600, 0, 0), 0);
    market.advance_round(600 * SECOND, 1).unwrap();
    let mut no_bidding = market.into_parts();
    no_bidding.next_round = None;
    assert!(Ledger::from_parts(no_bidding).is_none());
}
