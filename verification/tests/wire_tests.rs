use edisondb::wire::{map_tier, tier_str};
use edisondb::DataTier;

#[test]
fn tier_codes() {
    assert_eq!(map_tier(0), Some(DataTier::Critical));
    assert_eq!(map_tier(1), Some(DataTier::Personal));
    assert_eq!(map_tier(2), Some(DataTier::Noise));
    assert_eq!(map_tier(3), None);
    assert_eq!(map_tier(-1), None);
}

#[test]
fn data_tier_names() {
    assert_eq!(tier_str(&DataTier::Critical), "CRITICAL");
    assert_eq!(tier_str(&DataTier::Personal), "PERSONAL");
    assert_eq!(tier_str(&DataTier::Noise), "NOISE");
}
