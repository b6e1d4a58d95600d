use chunkgen::wildlife::DayPeriod;
use chunkgen::wildlife::Pack;
use chunkgen::wildlife::SpawnEntry;
use chunkgen::wildlife::thread_rng;

fn pack(
    groups: Vec<(u32, (u8, u8, String))>,
    is_underwater: bool,
    day_period: Vec<DayPeriod>,
) -> Pack {
    Pack { groups, is_underwater, day_period }
}

#[test]
fn request_picks_first_matching_rule() {
    let entry = SpawnEntry {
        name: "test.entry".to_string(),
        note: "".to_string(),
        rules: vec![
            pack(
                vec![(1, (1, 1, "night.animal".to_string()))],
                false,
                vec![DayPeriod::Night],
            ),
            pack(
                vec![(1, (1, 1, "day.animal".to_string()))],
                false,
                vec![DayPeriod::Morning, DayPeriod::Noon, DayPeriod::Evening],
            ),
            pack(
                vec![(1, (1, 1, "fish".to_string()))],
                true,
                vec![DayPeriod::Noon],
            ),
        ],
    };
    let noon = entry.request(DayPeriod::Noon, false).expect("a land rule applies at noon");
    assert_eq!(noon.groups[0].1.2, "day.animal");
    let night = entry.request(DayPeriod::Night, false).expect("a land rule applies at night");
    assert_eq!(night.groups[0].1.2, "night.animal");
    let water_noon = entry.request(DayPeriod::Noon, true).expect("a water rule applies at noon");
    assert_eq!(water_noon.groups[0].1.2, "fish");
    assert!(entry.request(DayPeriod::Night, true).is_none());
}

#[test]
fn generate_single_group_is_deterministic() {
    let p = pack(vec![(1, (2, 2, "only.animal".to_string()))], false, vec![DayPeriod::Noon]);
    let mut rng = thread_rng();
    let (name, size) = p.generate(&mut rng);
    assert_eq!(name, "only.animal");
    assert_eq!(size, 2);
}

#[test]
fn generate_skips_zero_weight_groups() {
    let p = pack(
        vec![
            (3, (1, 2, "frostfang".to_string())),
            (0, (5, 6, "never".to_string())),
            (1, (1, 1, "yale".to_string())),
        ],
        false,
        vec![DayPeriod::Night],
    );
    let mut rng = thread_rng();
    for _ in 0..64 {
        let (name, size) = p.generate(&mut rng);
        assert_ne!(name, "never");
        if name == "frostfang" {
            assert!((1..=2).contains(&size));
        } else {
            assert_eq!(name, "yale");
            assert_eq!(size, 1);
        }
    }
}
