use osm_world::extra_args::{check_latitude_text, check_longitude_text};
use osm_world::float_text::{check_float_rule, FloatRule};

const SAMPLES: &[&str] = &[
    "", "0", "-0", "+0", "1", "-1", "0.5", ".5", "5.", ".", "-.", "1e3", "1E3", "1e", "1e+", "e3",
    "1.5e-3", "+2.5", "--1", "1..2", "1.2.3", "inf", "-inf", "+Infinity", "INF", "infinity",
    "NaN", "nan", "-nan", "1_000", " 1", "1 ", "0x10", "3.4028235e38", "3.4028236e38",
    "3.40282357e38", "3.4028235677973366e38", "1e39", "1e-45", "1e-46", "7.006e-46", "7.007e-46",
    "1.00000005", "1.0000001", "0.99999999", "3.0000001", "3.000001", "24", "24.0000009",
    "24.000001", "23.99999", "-0.0000001", "-1e-50", "1e308", "1.7976931348623157e308",
    "1.7976931348623159e308", "1e309", "1e-320", "1e-330", "2.4703282292062328e-324",
    "2.4703282292062327e-324", "000000000000000000000001.5", "1e-99999999999999999999",
    "1e99999999999999999999", "0e99999999999999999999", "12345678901234567890123456789",
    "90", "-90", "90.000000000000007105427357601", "90.0000000000000072", "-90.0000000000000072",
    "180", "-180.0000000000000142108547152020", "180.0000000000000143", "38.65671", "-121.72179",
    "91", "-181",
];

fn expect(text: &str, rule: FloatRule) -> Option<bool> {
    match rule {
        FloatRule::PositiveF64 => text.parse::<f64>().ok().map(|v| v.is_finite() && v > 0.0),
        FloatRule::LatitudeF64 => text
            .parse::<f64>()
            .ok()
            .map(|v| v.is_finite() && (-90.0..=90.0).contains(&v)),
        FloatRule::LongitudeF64 => text
            .parse::<f64>()
            .ok()
            .map(|v| v.is_finite() && (-180.0..=180.0).contains(&v)),
        _ => text.parse::<f32>().ok().map(|v| {
            v.is_finite()
                && match rule {
                    FloatRule::FiniteF32 => true,
                    FloatRule::NonnegativeF32 => v >= 0.0,
                    FloatRule::PositiveF32 => v > 0.0,
                    FloatRule::NormalizedF32 => (0.0..=1.0).contains(&v),
                    FloatRule::DensityF32 => (0.0..=3.0).contains(&v),
                    FloatRule::HourF32 => (0.0..=24.0).contains(&v),
                    _ => unreachable!(),
                }
        }),
    }
}

#[test]
fn float_rules_agree_with_the_standard_parser() {
    let rules = [
        FloatRule::FiniteF32,
        FloatRule::NonnegativeF32,
        FloatRule::PositiveF32,
        FloatRule::PositiveF64,
        FloatRule::NormalizedF32,
        FloatRule::DensityF32,
        FloatRule::HourF32,
        FloatRule::LatitudeF64,
        FloatRule::LongitudeF64,
    ];
    for text in SAMPLES {
        for rule in rules {
            assert_eq!(
                check_float_rule(text, rule),
                expect(text, rule),
                "{text:?} under {rule:?}"
            );
        }
    }
}

#[test]
fn coordinate_checks_name_the_problem() {
    assert!(check_latitude_text("38.65671").is_ok());
    assert!(check_longitude_text("-121.72179").is_ok());
    assert_eq!(
        check_latitude_text("91"),
        Err("must be a finite latitude in the range -90..=90".to_string())
    );
    assert_eq!(
        check_latitude_text("NaN"),
        Err("must be a finite latitude in the range -90..=90".to_string())
    );
    assert_eq!(
        check_longitude_text("-181"),
        Err("must be a finite longitude in the range -180..=180".to_string())
    );
    assert_eq!(
        check_longitude_text("inf"),
        Err("must be a finite longitude in the range -180..=180".to_string())
    );
    assert_eq!(
        check_latitude_text("north"),
        Err("invalid latitude: invalid float literal".to_string())
    );
    assert_eq!(
        check_longitude_text(""),
        Err("invalid longitude: cannot parse float from empty string".to_string())
    );
}
