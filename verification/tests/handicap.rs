use shogi_kifu_converter::handicap::{handicaps, lookup, side_to_move};
use shogi_kifu_converter::jkf::{Color, Kind, Preset};

type SpecRow = (&'static str, Preset, &'static [(u8, u8, Kind)]);

const TABLE: [SpecRow; 16] = [
    ("平手", Preset::PresetHirate, &[]),
    ("香落ち", Preset::PresetKY, &[(1, 1, Kind::KY)]),
    ("右香落ち", Preset::PresetKYR, &[(9, 1, Kind::KY)]),
    ("角落ち", Preset::PresetKA, &[(2, 2, Kind::KA)]),
    ("飛車落ち", Preset::PresetHI, &[(8, 2, Kind::HI)]),
    ("飛香落ち", Preset::PresetHIKY, &[(8, 2, Kind::HI), (1, 1, Kind::KY)]),
    ("二枚落ち", Preset::Preset2, &[(8, 2, Kind::HI), (2, 2, Kind::KA)]),
    ("三枚落ち", Preset::Preset3, &[(8, 2, Kind::HI), (2, 2, Kind::KA), (1, 1, Kind::KY)]),
    ("四枚落ち", Preset::Preset4, &[(8, 2, Kind::HI), (2, 2, Kind::KA), (9, 1, Kind::KY), (1, 1, Kind::KY)]),
    ("五枚落ち", Preset::Preset5, &[(8, 2, Kind::HI), (2, 2, Kind::KA), (9, 1, Kind::KY), (1, 1, Kind::KY), (8, 1, Kind::KE)]),
    ("左五枚落ち", Preset::Preset5L, &[(8, 2, Kind::HI), (2, 2, Kind::KA), (9, 1, Kind::KY), (1, 1, Kind::KY), (2, 1, Kind::KE)]),
    ("六枚落ち", Preset::Preset6, &[(8, 2, Kind::HI), (2, 2, Kind::KA), (9, 1, Kind::KY), (1, 1, Kind::KY), (8, 1, Kind::KE), (2, 1, Kind::KE)]),
    ("右七枚落ち", Preset::Preset7R, &[(8, 2, Kind::HI), (2, 2, Kind::KA), (9, 1, Kind::KY), (1, 1, Kind::KY), (8, 1, Kind::KE), (2, 1, Kind::KE), (7, 1, Kind::GI)]),
    ("左七枚落ち", Preset::Preset7L, &[(8, 2, Kind::HI), (2, 2, Kind::KA), (9, 1, Kind::KY), (1, 1, Kind::KY), (8, 1, Kind::KE), (2, 1, Kind::KE), (3, 1, Kind::GI)]),
    ("八枚落ち", Preset::Preset8, &[(8, 2, Kind::HI), (2, 2, Kind::KA), (9, 1, Kind::KY), (1, 1, Kind::KY), (8, 1, Kind::KE), (2, 1, Kind::KE), (7, 1, Kind::GI), (3, 1, Kind::GI)]),
    ("十枚落ち", Preset::Preset10, &[(8, 2, Kind::HI), (2, 2, Kind::KA), (9, 1, Kind::KY), (1, 1, Kind::KY), (8, 1, Kind::KE), (2, 1, Kind::KE), (7, 1, Kind::GI), (3, 1, Kind::GI), (6, 1, Kind::KI), (4, 1, Kind::KI)]),
];

#[test]
fn the_table_matches_the_specification() {
    let mut seen = std::collections::BTreeSet::new();
    for (kif_name, preset, removed) in TABLE {
        let entry = lookup(preset).unwrap_or_else(|| panic!("{kif_name} is missing"));
        assert_eq!(kif_name, entry.kif_name, "the KIF name for {preset:?}");
        let want: std::collections::BTreeSet<_> = removed
            .iter()
            .map(|&(f, r, k)| (f, r, format!("{k:?}")))
            .collect();
        let got: std::collections::BTreeSet<_> = entry
            .removed
            .iter()
            .map(|&(f, r, k)| (f, r, format!("{k:?}")))
            .collect();
        assert_eq!(want.len(), removed.len(), "{kif_name} lists a square twice");
        assert_eq!(want, got, "the pieces {kif_name} takes off");
        seen.insert(kif_name);
    }
    assert_eq!(
        seen.len(),
        handicaps().len(),
        "the specification lists {} handicaps, the table holds {}",
        seen.len(),
        handicaps().len()
    );
}

#[test]
fn only_the_even_game_starts_with_black() {
    for handicap in handicaps() {
        let want = if handicap.preset == Preset::PresetHirate {
            Color::Black
        } else {
            Color::White
        };
        assert_eq!(want, side_to_move(handicap.preset), "{}", handicap.kif_name);
    }
}
