use wealthfolio_core::allocation::model::{
    BandType, ConstraintAction, ConstraintEffect, ConstraintSubjectType, RebalanceGoal, ScopeType,
    TriggerType,
};

#[test]
fn absolute_band_ignores_target_bps() {
    let band = BandType::Absolute;
    assert_eq!(band.effective_band_bps(5000, 500, 2000), 500);
    assert_eq!(band.effective_band_bps(100, 500, 2000), 500);
    assert_eq!(band.effective_band_bps(0, 500, 2000), 500);
}

#[test]
fn hybrid_band_large_sleeve_uses_relative() {
    let band = BandType::Hybrid;
    // 50% target, 20% factor: relative = 5000 * 2000 / 10000 = 1000 bps,
    // above the 100 bps floor.
    assert_eq!(band.effective_band_bps(5000, 100, 2000), 1000);
}

#[test]
fn hybrid_band_small_sleeve_uses_floor() {
    let band = BandType::Hybrid;
    // 1% target, 20% factor: relative = 20 bps, below the 100 bps floor.
    assert_eq!(band.effective_band_bps(100, 100, 2000), 100);
}

#[test]
fn hybrid_band_zero_target_uses_floor() {
    let band = BandType::Hybrid;
    assert_eq!(band.effective_band_bps(0, 100, 2000), 100);
}

#[test]
fn hybrid_band_mid_sleeve() {
    let band = BandType::Hybrid;
    // 10% target, 20% factor: relative = 200 bps, above the floor.
    assert_eq!(band.effective_band_bps(1000, 100, 2000), 200);
}

#[test]
fn band_type_round_trip() {
    assert_eq!(BandType::try_from("absolute"), Ok(BandType::Absolute));
    assert_eq!(BandType::try_from("hybrid"), Ok(BandType::Hybrid));
    assert!(BandType::try_from("invalid").is_err());
    assert_eq!(BandType::Absolute.as_str(), "absolute");
    assert_eq!(BandType::Hybrid.as_str(), "hybrid");
}

#[test]
fn hybrid_band_truncates_the_relative_width() {
    // 333 * 2000 / 10000 = 66.6, truncated to 66; above a 50 bps floor.
    assert_eq!(BandType::Hybrid.effective_band_bps(333, 50, 2000), 66);
}

#[test]
fn every_code_reads_back_as_its_value() {
    for scope in [ScopeType::All, ScopeType::Portfolio, ScopeType::Account] {
        assert_eq!(ScopeType::try_from(scope.as_str()), Ok(scope));
    }
    for trigger in [TriggerType::Manual, TriggerType::Threshold] {
        assert_eq!(TriggerType::try_from(trigger.as_str()), Ok(trigger));
    }
    for goal in [RebalanceGoal::NearestBand, RebalanceGoal::ExactTarget] {
        assert_eq!(RebalanceGoal::try_from(goal.as_str()), Ok(goal));
    }
    for subject in [ConstraintSubjectType::Asset, ConstraintSubjectType::Account, ConstraintSubjectType::Category] {
        assert_eq!(ConstraintSubjectType::try_from(subject.as_str()), Ok(subject));
    }
    for action in [ConstraintAction::Buy, ConstraintAction::Sell, ConstraintAction::Trade] {
        assert_eq!(ConstraintAction::try_from(action.as_str()), Ok(action));
    }
    for effect in [ConstraintEffect::Block, ConstraintEffect::Avoid] {
        assert_eq!(ConstraintEffect::try_from(effect.as_str()), Ok(effect));
    }
}

#[test]
fn unknown_codes_are_refused_with_their_text() {
    assert_eq!(BandType::try_from("relative"), Err("unknown band type: relative".to_string()));
    assert!(ScopeType::try_from("").is_err());
    assert!(ConstraintEffect::try_from("BLOCK").is_err());
}
