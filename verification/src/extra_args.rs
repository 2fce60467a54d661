//! Allowlist validation of the extra renderer flags a client may forward when
//! launching the renderer: each flag must be known, and each value given to a
//! value-taking flag must be one the renderer's own argument parser accepts.

use vstd::prelude::*;

use crate::digits::digits_value;
use crate::float_text::{check_float_rule, parse_float_text, FloatRule, FloatText, float_rule_holds};
use crate::int_text::{parse_usize, parse_usize_text, IntParseError};
use crate::text::{chars_of, join_seqs, join_strings, string_of_range};

verus! {

/// How the value of a value-taking flag is checked.
#[derive(Clone, Copy, Debug, PartialEq, Eq, Structural)]
pub enum ValueRule {
    /// A screenshot path: nonempty, no NUL, no `..` component.
    ScreenshotPath,
    /// A float that must meet the given bound.
    Float(FloatRule),
    /// A `usize` of at least 1.
    PositiveUsize,
    /// One of `performance`, `balanced`, `showcase`.
    VisualPreset,
    /// One of `off`, `simple`, `showcase`.
    LandmarkDetail,
}

/// What an allowed renderer flag expects.
#[derive(Clone, Copy, Debug, PartialEq, Eq, Structural)]
pub enum FlagKind {
    Switch,
    Value(ValueRule),
}

/// Why a flag value was rejected.
#[derive(Clone, Copy, Debug, PartialEq, Eq, Structural)]
pub enum ValueProblem {
    /// Not float text; `empty` when the text was empty.
    InvalidFloat { empty: bool },
    /// Not float text, for the hour-of-day flag.
    InvalidHour { empty: bool },
    /// Not a `usize`.
    InvalidInteger(IntParseError),
    /// A float outside the bound of the rule.
    OutOfRange(FloatRule),
    /// A `usize` of zero.
    BelowOne,
    EmptyPath,
    NulInPath,
    ParentDirInPath,
    UnknownVisualPreset,
    UnknownLandmarkDetail,
}

/// The renderer flags that may be forwarded, in the order they are listed to
/// clients, with what each expects.
pub open spec fn renderer_flag_table() -> Seq<(Seq<char>, FlagKind)> {
    seq![
        ("--screenshot"@, FlagKind::Value(ValueRule::ScreenshotPath)),
        ("--screenshot-delay"@, FlagKind::Value(ValueRule::Float(FloatRule::NonnegativeF32))),
        ("--auto-exit"@, FlagKind::Value(ValueRule::Float(FloatRule::NonnegativeF32))),
        ("--width"@, FlagKind::Value(ValueRule::Float(FloatRule::PositiveF64))),
        ("--height"@, FlagKind::Value(ValueRule::Float(FloatRule::PositiveF64))),
        ("--cam-x"@, FlagKind::Value(ValueRule::Float(FloatRule::FiniteF32))),
        ("--cam-y"@, FlagKind::Value(ValueRule::Float(FloatRule::FiniteF32))),
        ("--cam-z"@, FlagKind::Value(ValueRule::Float(FloatRule::FiniteF32))),
        ("--cam-yaw"@, FlagKind::Value(ValueRule::Float(FloatRule::FiniteF32))),
        ("--cam-pitch"@, FlagKind::Value(ValueRule::Float(FloatRule::FiniteF32))),
        ("--show-settings"@, FlagKind::Switch),
        ("--time-of-day"@, FlagKind::Value(ValueRule::Float(FloatRule::HourF32))),
        ("--real-time-of-day"@, FlagKind::Switch),
        ("--hide-poi-labels"@, FlagKind::Switch),
        ("--hide-address-labels"@, FlagKind::Switch),
        ("--hide-street-sign-labels"@, FlagKind::Switch),
        ("--hide-minimap"@, FlagKind::Switch),
        ("--rotate-minimap"@, FlagKind::Switch),
        ("--debug-shadow-cascades"@, FlagKind::Switch),
        ("--visual-preset"@, FlagKind::Value(ValueRule::VisualPreset)),
        ("--landmark-detail"@, FlagKind::Value(ValueRule::LandmarkDetail)),
        ("--facade-variation"@, FlagKind::Value(ValueRule::Float(FloatRule::NormalizedF32))),
        ("--roof-variation"@, FlagKind::Value(ValueRule::Float(FloatRule::NormalizedF32))),
        ("--vegetation-density"@, FlagKind::Value(ValueRule::Float(FloatRule::DensityF32))),
        ("--synthetic-tree-cap"@, FlagKind::Value(ValueRule::PositiveUsize)),
        ("--vegetation-distance"@, FlagKind::Value(ValueRule::Float(FloatRule::NonnegativeF32))),
        ("--no-streaming"@, FlagKind::Switch),
        ("--tile-size"@, FlagKind::Value(ValueRule::Float(FloatRule::PositiveF32))),
        ("--stream-radius"@, FlagKind::Value(ValueRule::Float(FloatRule::PositiveF32))),
        ("--upload-budget-mb"@, FlagKind::Value(ValueRule::Float(FloatRule::PositiveF32))),
        ("--max-uploaded-tiles"@, FlagKind::Value(ValueRule::PositiveUsize)),
        ("--max-uploaded-mb"@, FlagKind::Value(ValueRule::Float(FloatRule::PositiveF32))),
    ]
}

/// What `name` expects, looking through the table from entry `i` on.
pub open spec fn lookup_flag_from(table: Seq<(Seq<char>, FlagKind)>, name: Seq<char>, i: int) -> Option<
    FlagKind,
>
    decreases table.len() - i,
{
    if i >= table.len() || i < 0 {
        None
    } else if table[i].0 == name {
        Some(table[i].1)
    } else {
        lookup_flag_from(table, name, i + 1)
    }
}

/// What flag `name` expects, or `None` when it is not an allowed flag.
pub open spec fn flag_kind(name: Seq<char>) -> Option<FlagKind> {
    lookup_flag_from(renderer_flag_table(), name, 0)
}

/// A `..` component in a `/`-separated path.
pub open spec fn has_parent_component(s: Seq<char>) -> bool {
    exists|i: int|
        0 <= i && i + 2 <= s.len() && #[trigger] s[i] == '.' && s[i + 1] == '.' && (i == 0 || s[i
            - 1] == '/') && (i + 2 == s.len() || s[i + 2] == '/')
}

/// The problem with `value` given to a flag with rule `rule`, if any.
pub open spec fn value_problem(rule: ValueRule, value: Seq<char>) -> Option<ValueProblem> {
    match rule {
        ValueRule::ScreenshotPath => if value.len() == 0 {
            Some(ValueProblem::EmptyPath)
        } else if value.contains('\0') {
            Some(ValueProblem::NulInPath)
        } else if has_parent_component(value) {
            Some(ValueProblem::ParentDirInPath)
        } else {
            None
        },
        ValueRule::Float(f) => match parse_float_text(value) {
            None => if f == FloatRule::HourF32 {
                Some(ValueProblem::InvalidHour { empty: value.len() == 0 })
            } else {
                Some(ValueProblem::InvalidFloat { empty: value.len() == 0 })
            },
            Some(t) => if float_rule_holds(t, f) {
                None
            } else {
                Some(ValueProblem::OutOfRange(f))
            },
        },
        ValueRule::PositiveUsize => match parse_usize_text(value) {
            Err(e) => Some(ValueProblem::InvalidInteger(e)),
            Ok(n) => if n < 1 {
                Some(ValueProblem::BelowOne)
            } else {
                None
            },
        },
        ValueRule::VisualPreset => if value == "performance"@ || value == "balanced"@ || value
            == "showcase"@ {
            None
        } else {
            Some(ValueProblem::UnknownVisualPreset)
        },
        ValueRule::LandmarkDetail => if value == "off"@ || value == "simple"@ || value
            == "showcase"@ {
            None
        } else {
            Some(ValueProblem::UnknownLandmarkDetail)
        },
    }
}

/// One rejected value or misused flag.
pub enum ArgIssue {
    /// `flag` was given a value it does not accept.
    Invalid(Seq<char>, ValueProblem),
    /// `flag=value` for a flag that takes no value (or a non-flag name).
    UnexpectedValue(Seq<char>),
    /// A value-taking flag at the end of the list.
    MissingValue(Seq<char>),
}

/// Index of the first `=` in `s` at or after `i` (or the length).
pub open spec fn first_equals(s: Seq<char>, i: int) -> int
    decreases s.len() - i,
{
    if i >= s.len() {
        s.len() as int
    } else if s[i] == '=' {
        i
    } else {
        first_equals(s, i + 1)
    }
}

pub open spec fn starts_with_dashes(s: Seq<char>) -> bool {
    s.len() >= 2 && s[0] == '-' && s[1] == '-'
}

/// The issues raised by one value, as a list.
pub open spec fn issues_of(flag: Seq<char>, p: Option<ValueProblem>) -> Seq<ArgIssue> {
    match p {
        None => Seq::empty(),
        Some(q) => seq![ArgIssue::Invalid(flag, q)],
    }
}

/// The rejected flag names and value issues found from argument `i` on.
pub open spec fn scan_args(args: Seq<Seq<char>>, i: int) -> (Seq<Seq<char>>, Seq<ArgIssue>)
    decreases args.len() - i,
{
    if i >= args.len() || i < 0 {
        (Seq::empty(), Seq::empty())
    } else {
        let arg = args[i];
        let eq = first_equals(arg, 0);
        if eq < arg.len() {
            let name = arg.take(eq);
            let rest = scan_args(args, i + 1);
            match flag_kind(name) {
                Some(FlagKind::Value(rule)) => (
                    rest.0,
                    issues_of(name, value_problem(rule, arg.skip(eq + 1))) + rest.1,
                ),
                None => if starts_with_dashes(name) {
                    (seq![name] + rest.0, rest.1)
                } else {
                    (rest.0, seq![ArgIssue::UnexpectedValue(name)] + rest.1)
                },
                Some(FlagKind::Switch) => (
                    rest.0,
                    seq![ArgIssue::UnexpectedValue(name)] + rest.1,
                ),
            }
        } else {
            match flag_kind(arg) {
                Some(FlagKind::Value(rule)) => if i + 1 < args.len() {
                    let rest = scan_args(args, i + 2);
                    (rest.0, issues_of(arg, value_problem(rule, args[i + 1])) + rest.1)
                } else {
                    (Seq::empty(), seq![ArgIssue::MissingValue(arg)])
                },
                None => {
                    let rest = scan_args(args, i + 1);
                    if starts_with_dashes(arg) {
                        (seq![arg] + rest.0, rest.1)
                    } else {
                        rest
                    }
                },
                Some(FlagKind::Switch) => scan_args(args, i + 1),
            }
        }
    }
}

/// The arguments from `i` on, read left to right, are all acceptable: a
/// `name=value` token names a value-taking flag and gives it a value its rule
/// accepts; a value-taking flag written alone is followed by a value its rule
/// accepts, which it consumes; a switch stands alone; and any other token is
/// a plain word, not one that starts with `--`.
pub open spec fn tokens_accepted(args: Seq<Seq<char>>, i: int) -> bool
    decreases args.len() - i,
{
    if i >= args.len() || i < 0 {
        true
    } else {
        let arg = args[i];
        let eq = first_equals(arg, 0);
        if eq < arg.len() {
            match flag_kind(arg.take(eq)) {
                Some(FlagKind::Value(rule)) => value_problem(rule, arg.skip(eq + 1)) is None
                    && tokens_accepted(args, i + 1),
                _ => false,
            }
        } else {
            match flag_kind(arg) {
                Some(FlagKind::Value(rule)) => i + 1 < args.len() && value_problem(
                    rule,
                    args[i + 1],
                ) is None && tokens_accepted(args, i + 2),
                Some(FlagKind::Switch) => tokens_accepted(args, i + 1),
                None => !starts_with_dashes(arg) && tokens_accepted(args, i + 1),
            }
        }
    }
}

/// The lookup from entry `i` on finds `name` exactly when an entry from
/// there on has that name.
proof fn lemma_lookup_finds_listed(table: Seq<(Seq<char>, FlagKind)>, name: Seq<char>, i: int)
    requires
        0 <= i <= table.len(),
    ensures
        lookup_flag_from(table, name, i) is Some <==> exists|j: int|
            i <= j < table.len() && #[trigger] table[j].0 == name,
    decreases table.len() - i,
{
    if i < table.len() {
        lemma_lookup_finds_listed(table, name, i + 1);
        if lookup_flag_from(table, name, i + 1) is None && table[i].0 != name {
            assert forall|j: int| i <= j < table.len() implies #[trigger] table[j].0 != name by {
                if j > i {
                    assert(!(i + 1 <= j < table.len() && table[j].0 == name));
                }
            }
        }
    }
}

/// No flag name occurs twice in the table.
proof fn lemma_flag_names_distinct()
    ensures
        forall|j: int, k: int|
            0 <= j < k < renderer_flag_table().len() ==> renderer_flag_table()[j].0
                != renderer_flag_table()[k].0,
{
    let t = renderer_flag_table();
    reveal_strlit("--screenshot");
    reveal_strlit("--screenshot-delay");
    reveal_strlit("--auto-exit");
    reveal_strlit("--width");
    reveal_strlit("--height");
    reveal_strlit("--cam-x");
    reveal_strlit("--cam-y");
    reveal_strlit("--cam-z");
    reveal_strlit("--cam-yaw");
    reveal_strlit("--cam-pitch");
    reveal_strlit("--show-settings");
    reveal_strlit("--time-of-day");
    reveal_strlit("--real-time-of-day");
    reveal_strlit("--hide-poi-labels");
    reveal_strlit("--hide-address-labels");
    reveal_strlit("--hide-street-sign-labels");
    reveal_strlit("--hide-minimap");
    reveal_strlit("--rotate-minimap");
    reveal_strlit("--debug-shadow-cascades");
    reveal_strlit("--visual-preset");
    reveal_strlit("--landmark-detail");
    reveal_strlit("--facade-variation");
    reveal_strlit("--roof-variation");
    reveal_strlit("--vegetation-density");
    reveal_strlit("--synthetic-tree-cap");
    reveal_strlit("--vegetation-distance");
    reveal_strlit("--no-streaming");
    reveal_strlit("--tile-size");
    reveal_strlit("--stream-radius");
    reveal_strlit("--upload-budget-mb");
    reveal_strlit("--max-uploaded-tiles");
    reveal_strlit("--max-uploaded-mb");
    assert(t[0].0.len() == 12);
    assert(t[1].0.len() == 18);
    assert(t[2].0.len() == 11);
    assert(t[3].0.len() == 7);
    assert(t[4].0.len() == 8);
    assert(t[5].0.len() == 7);
    assert(t[6].0.len() == 7);
    assert(t[7].0.len() == 7);
    assert(t[8].0.len() == 9);
    assert(t[9].0.len() == 11);
    assert(t[10].0.len() == 15);
    assert(t[11].0.len() == 13);
    assert(t[12].0.len() == 18);
    assert(t[13].0.len() == 17);
    assert(t[14].0.len() == 21);
    assert(t[15].0.len() == 25);
    assert(t[16].0.len() == 14);
    assert(t[17].0.len() == 16);
    assert(t[18].0.len() == 23);
    assert(t[19].0.len() == 15);
    assert(t[20].0.len() == 17);
    assert(t[21].0.len() == 18);
    assert(t[22].0.len() == 16);
    assert(t[23].0.len() == 20);
    assert(t[24].0.len() == 20);
    assert(t[25].0.len() == 21);
    assert(t[26].0.len() == 14);
    assert(t[27].0.len() == 11);
    assert(t[28].0.len() == 15);
    assert(t[29].0.len() == 18);
    assert(t[30].0.len() == 20);
    assert(t[31].0.len() == 17);
    assert(t[1].0[2] != t[12].0[2]);
    assert(t[1].0[2] != t[21].0[2]);
    assert(t[1].0[2] != t[29].0[2]);
    assert(t[2].0[2] != t[9].0[2]);
    assert(t[2].0[2] != t[27].0[2]);
    assert(t[3].0[2] != t[5].0[2]);
    assert(t[3].0[2] != t[6].0[2]);
    assert(t[3].0[2] != t[7].0[2]);
    assert(t[5].0[6] != t[6].0[6]);
    assert(t[5].0[6] != t[7].0[6]);
    assert(t[6].0[6] != t[7].0[6]);
    assert(t[9].0[2] != t[27].0[2]);
    assert(t[10].0[2] != t[19].0[2]);
    assert(t[10].0[3] != t[28].0[3]);
    assert(t[12].0[2] != t[21].0[2]);
    assert(t[12].0[2] != t[29].0[2]);
    assert(t[13].0[2] != t[20].0[2]);
    assert(t[13].0[2] != t[31].0[2]);
    assert(t[14].0[2] != t[25].0[2]);
    assert(t[16].0[2] != t[26].0[2]);
    assert(t[17].0[4] != t[22].0[4]);
    assert(t[19].0[2] != t[28].0[2]);
    assert(t[20].0[2] != t[31].0[2]);
    assert(t[21].0[2] != t[29].0[2]);
    assert(t[23].0[2] != t[24].0[2]);
    assert(t[23].0[2] != t[30].0[2]);
    assert(t[24].0[2] != t[30].0[2]);
    assert forall|j: int, k: int| 0 <= j < k < t.len() implies (#[trigger] t[j]).0 != (
    #[trigger] t[k]).0 by {
        assert(k == 1 || k == 2 || k == 3 || k == 4 || k == 5 || k == 6 || k == 7 || k == 8 ||
            k == 9 || k == 10 || k == 11 || k == 12 || k == 13 || k == 14 || k == 15 ||
            k == 16 || k == 17 || k == 18 || k == 19 || k == 20 || k == 21 || k == 22 ||
            k == 23 || k == 24 || k == 25 || k == 26 || k == 27 || k == 28 || k == 29 ||
            k == 30 || k == 31);
    }
}

/// With distinct names, the lookup finds the kind of the entry that has the
/// name.
proof fn lemma_lookup_finds_entry(table: Seq<(Seq<char>, FlagKind)>, j: int, i: int)
    requires
        0 <= i <= j < table.len(),
        forall|a: int, b: int| 0 <= a < b < table.len() ==> table[a].0 != table[b].0,
    ensures
        lookup_flag_from(table, table[j].0, i) == Some(table[j].1),
    decreases j - i,
{
    if i < j {
        lemma_lookup_finds_entry(table, j, i + 1);
    }
}

/// A lookup that finds a kind found it in an entry with that name.
proof fn lemma_lookup_found_in_entry(
    table: Seq<(Seq<char>, FlagKind)>,
    name: Seq<char>,
    i: int,
)
    requires
        0 <= i,
        lookup_flag_from(table, name, i) is Some,
    ensures
        exists|j: int|
            i <= j < table.len() && (#[trigger] table[j]).0 == name && table[j].1 == lookup_flag_from(
                table,
                name,
                i,
            )->Some_0,
    decreases table.len() - i,
{
    if i < table.len() && table[i].0 != name {
        lemma_lookup_found_in_entry(table, name, i + 1);
    }
}

/// Each allowlisted flag's value is checked by the parser that the
/// renderer's own command line applies to that flag, and the switches take
/// no value: sizes, radii and budgets of tile streaming must be finite
/// positive `f32`s, the window size finite positive `f64`s, delays and
/// distances finite non-negative `f32`s, camera coordinates finite `f32`s,
/// the hour of day an `f32` in `0..=24`, variations in `0..=1`, the
/// vegetation density in `0..=3`, counts `usize`s of at least one, and the
/// preset and landmark detail one of their names.
pub proof fn lemma_flag_rules_follow_renderer_parsers(name: Seq<char>)
    ensures
        (name == "--tile-size"@ || name == "--stream-radius"@ || name == "--upload-budget-mb"@
            || name == "--max-uploaded-mb"@) <==> flag_kind(name) == Some(
            FlagKind::Value(ValueRule::Float(FloatRule::PositiveF32)),
        ),
        (name == "--width"@ || name == "--height"@) <==> flag_kind(name) == Some(
            FlagKind::Value(ValueRule::Float(FloatRule::PositiveF64)),
        ),
        (name == "--screenshot-delay"@ || name == "--auto-exit"@ || name
            == "--vegetation-distance"@) <==> flag_kind(name) == Some(
            FlagKind::Value(ValueRule::Float(FloatRule::NonnegativeF32)),
        ),
        (name == "--cam-x"@ || name == "--cam-y"@ || name == "--cam-z"@ || name == "--cam-yaw"@
            || name == "--cam-pitch"@) <==> flag_kind(name) == Some(
            FlagKind::Value(ValueRule::Float(FloatRule::FiniteF32)),
        ),
        (name == "--time-of-day"@) <==> flag_kind(name) == Some(
            FlagKind::Value(ValueRule::Float(FloatRule::HourF32)),
        ),
        (name == "--facade-variation"@ || name == "--roof-variation"@) <==> flag_kind(name)
            == Some(FlagKind::Value(ValueRule::Float(FloatRule::NormalizedF32))),
        (name == "--vegetation-density"@) <==> flag_kind(name) == Some(
            FlagKind::Value(ValueRule::Float(FloatRule::DensityF32)),
        ),
        (name == "--synthetic-tree-cap"@ || name == "--max-uploaded-tiles"@) <==> flag_kind(name)
            == Some(FlagKind::Value(ValueRule::PositiveUsize)),
        (name == "--visual-preset"@) <==> flag_kind(name) == Some(
            FlagKind::Value(ValueRule::VisualPreset),
        ),
        (name == "--landmark-detail"@) <==> flag_kind(name) == Some(
            FlagKind::Value(ValueRule::LandmarkDetail),
        ),
        (name == "--screenshot"@) <==> flag_kind(name) == Some(
            FlagKind::Value(ValueRule::ScreenshotPath),
        ),
        (name == "--show-settings"@ || name == "--real-time-of-day"@ || name
            == "--hide-poi-labels"@ || name == "--hide-address-labels"@ || name
            == "--hide-street-sign-labels"@ || name == "--hide-minimap"@ || name
            == "--rotate-minimap"@ || name == "--debug-shadow-cascades"@ || name
            == "--no-streaming"@) <==> flag_kind(name) == Some(FlagKind::Switch),
{
    let t = renderer_flag_table();
    lemma_flag_names_distinct();
    lemma_lookup_finds_entry(t, 0, 0);
    lemma_lookup_finds_entry(t, 1, 0);
    lemma_lookup_finds_entry(t, 2, 0);
    lemma_lookup_finds_entry(t, 3, 0);
    lemma_lookup_finds_entry(t, 4, 0);
    lemma_lookup_finds_entry(t, 5, 0);
    lemma_lookup_finds_entry(t, 6, 0);
    lemma_lookup_finds_entry(t, 7, 0);
    lemma_lookup_finds_entry(t, 8, 0);
    lemma_lookup_finds_entry(t, 9, 0);
    lemma_lookup_finds_entry(t, 10, 0);
    lemma_lookup_finds_entry(t, 11, 0);
    lemma_lookup_finds_entry(t, 12, 0);
    lemma_lookup_finds_entry(t, 13, 0);
    lemma_lookup_finds_entry(t, 14, 0);
    lemma_lookup_finds_entry(t, 15, 0);
    lemma_lookup_finds_entry(t, 16, 0);
    lemma_lookup_finds_entry(t, 17, 0);
    lemma_lookup_finds_entry(t, 18, 0);
    lemma_lookup_finds_entry(t, 19, 0);
    lemma_lookup_finds_entry(t, 20, 0);
    lemma_lookup_finds_entry(t, 21, 0);
    lemma_lookup_finds_entry(t, 22, 0);
    lemma_lookup_finds_entry(t, 23, 0);
    lemma_lookup_finds_entry(t, 24, 0);
    lemma_lookup_finds_entry(t, 25, 0);
    lemma_lookup_finds_entry(t, 26, 0);
    lemma_lookup_finds_entry(t, 27, 0);
    lemma_lookup_finds_entry(t, 28, 0);
    lemma_lookup_finds_entry(t, 29, 0);
    lemma_lookup_finds_entry(t, 30, 0);
    lemma_lookup_finds_entry(t, 31, 0);
    if flag_kind(name) is Some {
        lemma_lookup_found_in_entry(t, name, 0);
        let j = choose|j: int|
            0 <= j < t.len() && (#[trigger] t[j]).0 == name && t[j].1 == flag_kind(name)->Some_0;
        assert(j == 0 || j == 1 || j == 2 || j == 3 || j == 4 || j == 5 || j == 6 || j == 7 ||
            j == 8 || j == 9 || j == 10 || j == 11 || j == 12 || j == 13 || j == 14 ||
            j == 15 || j == 16 || j == 17 || j == 18 || j == 19 || j == 20 || j == 21 ||
            j == 22 || j == 23 || j == 24 || j == 25 || j == 26 || j == 27 || j == 28 ||
            j == 29 || j == 30 || j == 31);
    }
}

/// In a text without `=`, the first `=` from `i` on is at the end.
proof fn lemma_first_equals_absent(s: Seq<char>, i: int)
    requires
        0 <= i <= s.len(),
        !s.contains('='),
    ensures
        first_equals(s, i) == s.len(),
    decreases s.len() - i,
{
    if i < s.len() {
        assert(s[i] != '=');
        lemma_first_equals_absent(s, i + 1);
    }
}

/// In `name=value` with no `=` in the name, the first `=` ends the name.
proof fn lemma_first_equals_after_name(name: Seq<char>, value: Seq<char>, i: int)
    requires
        0 <= i <= name.len(),
        !name.contains('='),
    ensures
        first_equals(name + "="@ + value, i) == name.len(),
    decreases name.len() - i,
{
    reveal_strlit("=");
    let s = name + "="@ + value;
    if i < name.len() {
        assert(s[i] == name[i]);
        lemma_first_equals_after_name(name, value, i + 1);
    } else {
        assert(s[i] == '=');
    }
}

/// A flag whose renderer parser wants a positive number (the tile size,
/// stream radius and upload budgets, and the window width and height)
/// refuses a number that is zero or negative, whether the value follows the
/// flag or is joined to it by `=`.
pub proof fn lemma_positive_flags_refuse_non_positive_values(name: Seq<char>, value: Seq<char>)
    requires
        name == "--tile-size"@ || name == "--stream-radius"@ || name == "--upload-budget-mb"@
            || name == "--max-uploaded-mb"@ || name == "--width"@ || name == "--height"@,
        parse_float_text(value) matches Some(FloatText::Number { negative, digits, .. }) && (
        negative || digits_value(digits) == 0),
    ensures
        !tokens_accepted(seq![name, value], 0),
        !tokens_accepted(seq![name + "="@ + value], 0),
{
    lemma_flag_rules_follow_renderer_parsers(name);
    reveal_strlit("=");
    reveal_strlit("--tile-size");
    reveal_strlit("--stream-radius");
    reveal_strlit("--upload-budget-mb");
    reveal_strlit("--max-uploaded-mb");
    reveal_strlit("--width");
    reveal_strlit("--height");
    assert(!name.contains('='));
    lemma_first_equals_absent(name, 0);
    lemma_first_equals_after_name(name, value, 0);
    let joined = name + "="@ + value;
    assert(joined.take(name.len() as int) =~= name);
    assert(joined.skip(name.len() as int + 1) =~= value);
}

/// A flag name is known, with a kind, exactly when it is on the allowlist
/// that clients are shown.
pub proof fn lemma_flag_kind_known_exactly_when_allowed(name: Seq<char>)
    ensures
        flag_kind(name) is Some <==> allowed_flag_names().contains(name),
{
    let table = renderer_flag_table();
    lemma_lookup_finds_listed(table, name, 0);
    let names = allowed_flag_names();
    if flag_kind(name) is Some {
        let j = choose|j: int| 0 <= j < table.len() && #[trigger] table[j].0 == name;
        assert(names[j] == name);
    }
    if names.contains(name) {
        let j = choose|j: int| 0 <= j < names.len() && names[j] == name;
        assert(table[j].0 == name);
    }
}

/// The scan finds no rejected flag and no issue from argument `i` on exactly
/// when every token from there on is acceptable: only allowlisted flags,
/// each value-taking flag with a value its rule accepts, and no switch given
/// a value.
pub proof fn lemma_extra_args_accept_exactly_allowed_tokens(args: Seq<Seq<char>>, i: int)
    ensures
        (scan_args(args, i).0.len() == 0 && scan_args(args, i).1.len() == 0) <==> tokens_accepted(
            args,
            i,
        ),
    decreases args.len() - i,
{
    if i >= args.len() || i < 0 {
    } else {
        let arg = args[i];
        let eq = first_equals(arg, 0);
        if eq < arg.len() {
            lemma_extra_args_accept_exactly_allowed_tokens(args, i + 1);
        } else {
            match flag_kind(arg) {
                Some(FlagKind::Value(rule)) => {
                    if i + 1 < args.len() {
                        lemma_extra_args_accept_exactly_allowed_tokens(args, i + 2);
                    }
                },
                _ => {
                    lemma_extra_args_accept_exactly_allowed_tokens(args, i + 1);
                },
            }
        }
    }
}

/// An issue found in executable form.
#[derive(Debug)]
pub enum ArgProblem {
    Invalid { flag: String, problem: ValueProblem },
    UnexpectedValue { flag: String },
    MissingValue { flag: String },
}

pub open spec fn problem_view(p: ArgProblem) -> ArgIssue {
    match p {
        ArgProblem::Invalid { flag, problem } => ArgIssue::Invalid(flag@, problem),
        ArgProblem::UnexpectedValue { flag } => ArgIssue::UnexpectedValue(flag@),
        ArgProblem::MissingValue { flag } => ArgIssue::MissingValue(flag@),
    }
}

/// The flags that are not allowed, and the issues with the others.
#[derive(Debug)]
pub struct ExtraArgsError {
    pub rejected: Vec<String>,
    pub problems: Vec<ArgProblem>,
}

impl ExtraArgsError {
    pub open spec fn rejected_view(&self) -> Seq<Seq<char>> {
        self.rejected@.map_values(|s: String| s@)
    }

    pub open spec fn problems_view(&self) -> Seq<ArgIssue> {
        self.problems@.map_values(|p: ArgProblem| problem_view(p))
    }
}

/// The allowed flags as an executable table.
pub fn renderer_flags() -> (t: Vec<(&'static str, FlagKind)>)
    ensures
        t@.map_values(|p: (&'static str, FlagKind)| (p.0@, p.1)) == renderer_flag_table(),
{
    let mut t: Vec<(&'static str, FlagKind)> = Vec::new();
    t.push(("--screenshot", FlagKind::Value(ValueRule::ScreenshotPath)));
    t.push(("--screenshot-delay", FlagKind::Value(ValueRule::Float(FloatRule::NonnegativeF32))));
    t.push(("--auto-exit", FlagKind::Value(ValueRule::Float(FloatRule::NonnegativeF32))));
    t.push(("--width", FlagKind::Value(ValueRule::Float(FloatRule::PositiveF64))));
    t.push(("--height", FlagKind::Value(ValueRule::Float(FloatRule::PositiveF64))));
    t.push(("--cam-x", FlagKind::Value(ValueRule::Float(FloatRule::FiniteF32))));
    t.push(("--cam-y", FlagKind::Value(ValueRule::Float(FloatRule::FiniteF32))));
    t.push(("--cam-z", FlagKind::Value(ValueRule::Float(FloatRule::FiniteF32))));
    t.push(("--cam-yaw", FlagKind::Value(ValueRule::Float(FloatRule::FiniteF32))));
    t.push(("--cam-pitch", FlagKind::Value(ValueRule::Float(FloatRule::FiniteF32))));
    t.push(("--show-settings", FlagKind::Switch));
    t.push(("--time-of-day", FlagKind::Value(ValueRule::Float(FloatRule::HourF32))));
    t.push(("--real-time-of-day", FlagKind::Switch));
    t.push(("--hide-poi-labels", FlagKind::Switch));
    t.push(("--hide-address-labels", FlagKind::Switch));
    t.push(("--hide-street-sign-labels", FlagKind::Switch));
    t.push(("--hide-minimap", FlagKind::Switch));
    t.push(("--rotate-minimap", FlagKind::Switch));
    t.push(("--debug-shadow-cascades", FlagKind::Switch));
    t.push(("--visual-preset", FlagKind::Value(ValueRule::VisualPreset)));
    t.push(("--landmark-detail", FlagKind::Value(ValueRule::LandmarkDetail)));
    t.push(("--facade-variation", FlagKind::Value(ValueRule::Float(FloatRule::NormalizedF32))));
    t.push(("--roof-variation", FlagKind::Value(ValueRule::Float(FloatRule::NormalizedF32))));
    t.push(("--vegetation-density", FlagKind::Value(ValueRule::Float(FloatRule::DensityF32))));
    t.push(("--synthetic-tree-cap", FlagKind::Value(ValueRule::PositiveUsize)));
    t.push(("--vegetation-distance", FlagKind::Value(ValueRule::Float(FloatRule::NonnegativeF32))));
    t.push(("--no-streaming", FlagKind::Switch));
    t.push(("--tile-size", FlagKind::Value(ValueRule::Float(FloatRule::PositiveF32))));
    t.push(("--stream-radius", FlagKind::Value(ValueRule::Float(FloatRule::PositiveF32))));
    t.push(("--upload-budget-mb", FlagKind::Value(ValueRule::Float(FloatRule::PositiveF32))));
    t.push(("--max-uploaded-tiles", FlagKind::Value(ValueRule::PositiveUsize)));
    t.push(("--max-uploaded-mb", FlagKind::Value(ValueRule::Float(FloatRule::PositiveF32))));
    assert(t@.map_values(|p: (&'static str, FlagKind)| (p.0@, p.1)) =~= renderer_flag_table());
    t
}

/// `v[a..b]` spells `lit`.
pub(crate) fn segment_equals(v: &Vec<char>, a: usize, b: usize, lit: &str) -> (r: bool)
    requires
        a <= b <= v.len(),
    ensures
        r == (v@.subrange(a as int, b as int) == lit@),
{
    let n = lit.unicode_len();
    if b - a != n {
        return false;
    }
    let mut i: usize = 0;
    while i < n
        invariant
            i <= n,
            n == lit@.len(),
            a + n == b,
            b <= v.len(),
            forall|k: int| 0 <= k < i ==> v@[a + k] == lit@[k],
        decreases n - i,
    {
        if v[a + i] != lit.get_char(i) {
            assert(v@.subrange(a as int, b as int)[i as int] != lit@[i as int]);
            return false;
        }
        i = i + 1;
    }
    assert(v@.subrange(a as int, b as int) =~= lit@);
    true
}

/// What the flag spelled by `v[a..b]` expects, if it is allowed.
pub(crate) fn lookup_flag(v: &Vec<char>, a: usize, b: usize) -> (r: Option<FlagKind>)
    requires
        a <= b <= v.len(),
    ensures
        r == flag_kind(v@.subrange(a as int, b as int)),
{
    let t = renderer_flags();
    let ghost name = v@.subrange(a as int, b as int);
    let ghost table = renderer_flag_table();
    let mut i: usize = 0;
    while i < t.len()
        invariant
            i <= t.len(),
            a <= b <= v.len(),
            name == v@.subrange(a as int, b as int),
            table == renderer_flag_table(),
            t@.map_values(|p: (&'static str, FlagKind)| (p.0@, p.1)) == table,
            lookup_flag_from(table, name, i as int) == lookup_flag_from(table, name, 0),
        decreases t.len() - i,
    {
        let (lit, kind) = t[i];
        assert(table[i as int] == (lit@, kind));
        if segment_equals(v, a, b, lit) {
            return Some(kind);
        }
        i = i + 1;
    }
    None
}

/// Whether `v` has a `..` component.
fn parent_component_in(v: &Vec<char>) -> (r: bool)
    ensures
        r == has_parent_component(v@),
{
    let n = v.len();
    let mut i: usize = 0;
    while n >= 2 && i <= n - 2
        invariant
            n == v.len(),
            i <= n,
            forall|k: int|
                0 <= k < i ==> !(k + 2 <= v@.len() && #[trigger] v@[k] == '.' && v@[k + 1] == '.'
                    && (k == 0 || v@[k - 1] == '/') && (k + 2 == v@.len() || v@[k + 2] == '/')),
        decreases n - i,
    {
        if v[i] == '.' && v[i + 1] == '.' && (i == 0 || v[i - 1] == '/') && (i + 2 == n || v[i + 2]
            == '/') {
            return true;
        }
        i = i + 1;
    }
    false
}

/// Whether `v` holds the NUL character.
fn contains_nul(v: &Vec<char>) -> (r: bool)
    ensures
        r == v@.contains('\0'),
{
    let mut i: usize = 0;
    while i < v.len()
        invariant
            i <= v.len(),
            forall|k: int| 0 <= k < i ==> v@[k] != '\0',
        decreases v.len() - i,
    {
        if v[i] == '\0' {
            return true;
        }
        i = i + 1;
    }
    false
}

/// Checks one flag value against its rule.
pub fn check_value(rule: ValueRule, value: &str) -> (r: Option<ValueProblem>)
    ensures
        r == value_problem(rule, value@),
{
    match rule {
        ValueRule::ScreenshotPath => {
            let v = chars_of(value);
            if v.len() == 0 {
                Some(ValueProblem::EmptyPath)
            } else if contains_nul(&v) {
                Some(ValueProblem::NulInPath)
            } else if parent_component_in(&v) {
                Some(ValueProblem::ParentDirInPath)
            } else {
                None
            }
        },
        ValueRule::Float(f) => {
            let empty = value.unicode_len() == 0;
            match check_float_rule(value, f) {
                None => if f == FloatRule::HourF32 {
                    Some(ValueProblem::InvalidHour { empty })
                } else {
                    Some(ValueProblem::InvalidFloat { empty })
                },
                Some(true) => None,
                Some(false) => Some(ValueProblem::OutOfRange(f)),
            }
        },
        ValueRule::PositiveUsize => match parse_usize(value) {
            Err(e) => Some(ValueProblem::InvalidInteger(e)),
            Ok(n) => if n < 1 {
                Some(ValueProblem::BelowOne)
            } else {
                None
            },
        },
        ValueRule::VisualPreset => {
            let v = chars_of(value);
            let n = v.len();
            if segment_equals(&v, 0, n, "performance") || segment_equals(&v, 0, n, "balanced")
                || segment_equals(&v, 0, n, "showcase") {
                assert(v@.subrange(0, n as int) == value@);
                None
            } else {
                assert(v@.subrange(0, n as int) == value@);
                Some(ValueProblem::UnknownVisualPreset)
            }
        },
        ValueRule::LandmarkDetail => {
            let v = chars_of(value);
            let n = v.len();
            if segment_equals(&v, 0, n, "off") || segment_equals(&v, 0, n, "simple")
                || segment_equals(&v, 0, n, "showcase") {
                assert(v@.subrange(0, n as int) == value@);
                None
            } else {
                assert(v@.subrange(0, n as int) == value@);
                Some(ValueProblem::UnknownLandmarkDetail)
            }
        },
    }
}

/// The characters of each argument.
pub open spec fn args_view(args: Seq<String>) -> Seq<Seq<char>> {
    args.map_values(|a: String| a@)
}

/// Index of the first `=` in `v` (or its length).
fn find_equals(v: &Vec<char>) -> (e: usize)
    ensures
        e <= v.len(),
        e == first_equals(v@, 0),
{
    let mut e: usize = 0;
    while e < v.len() && v[e] != '='
        invariant
            e <= v.len(),
            first_equals(v@, e as int) == first_equals(v@, 0),
        decreases v.len() - e,
    {
        e = e + 1;
    }
    e
}

/// Whether `v[..n]` starts with `--`.
fn dashes_prefix(v: &Vec<char>, n: usize) -> (r: bool)
    requires
        n <= v.len(),
    ensures
        r == starts_with_dashes(v@.subrange(0, n as int)),
{
    n >= 2 && v[0] == '-' && v[1] == '-'
}

/// Validates the extra renderer flags forwarded by a client. Every flag must
/// be on the allowlist (`renderer_flag_table`), both `--flag value` and
/// `--flag=value` are accepted, and every value must pass its flag's check.
/// On failure the error lists every rejected flag name and every bad value,
/// exactly as `scan_args` finds them.
pub fn validate_extra_args(extra_args: &[String]) -> (r: Result<(), ExtraArgsError>)
    ensures
        r is Ok <==> scan_args(args_view(extra_args@), 0).0.len() == 0 && scan_args(
            args_view(extra_args@),
            0,
        ).1.len() == 0,
        r is Ok <==> tokens_accepted(args_view(extra_args@), 0),
        r is Err ==> r->Err_0.rejected_view() == scan_args(args_view(extra_args@), 0).0
            && r->Err_0.problems_view() == scan_args(args_view(extra_args@), 0).1,
{
    let n = extra_args.len();
    let ghost args = args_view(extra_args@);
    let mut rejected: Vec<String> = Vec::new();
    let mut problems: Vec<ArgProblem> = Vec::new();
    let mut i: usize = 0;
    while i < n
        invariant
            i <= n,
            n == extra_args@.len(),
            args == args_view(extra_args@),
            scan_args(args, 0).0 == rejected@.map_values(|s: String| s@) + scan_args(
                args,
                i as int,
            ).0,
            scan_args(args, 0).1 == problems@.map_values(|p: ArgProblem| problem_view(p))
                + scan_args(args, i as int).1,
        decreases n - i,
    {
        let ghost rv = rejected@.map_values(|s: String| s@);
        let ghost pv = problems@.map_values(|p: ArgProblem| problem_view(p));
        let arg = &extra_args[i];
        let v = chars_of(arg.as_str());
        let ghost a = args[i as int];
        assert(v@ == a);
        let len = v.len();
        let eq = find_equals(&v);
        if eq < len {
            let kind = lookup_flag(&v, 0, eq);
            let name = string_of_range(&v, 0, eq);
            assert(name@ == a.take(eq as int));
            let ghost rest = scan_args(args, i + 1);
            match kind {
                Some(FlagKind::Value(rule)) => {
                    let value = string_of_range(&v, eq + 1, len);
                    assert(value@ == a.skip(eq + 1));
                    let pr = check_value(rule, value.as_str());
                    match pr {
                        Some(q) => {
                            let item = ArgProblem::Invalid { flag: name, problem: q };
                            problems.push(item);
                            assert(problems@.map_values(|p: ArgProblem| problem_view(p)) =~= pv.push(
                                problem_view(item),
                            ));
                        },
                        None => {},
                    }
                },
                None => {
                    if dashes_prefix(&v, eq) {
                        rejected.push(name);
                        assert(rejected@.map_values(|s: String| s@) =~= rv.push(a.take(eq as int)));
                    } else {
                        let item = ArgProblem::UnexpectedValue { flag: name };
                        problems.push(item);
                        assert(problems@.map_values(|p: ArgProblem| problem_view(p)) =~= pv.push(
                            problem_view(item),
                        ));
                    }
                },
                Some(FlagKind::Switch) => {
                    let item = ArgProblem::UnexpectedValue { flag: name };
                    problems.push(item);
                    assert(problems@.map_values(|p: ArgProblem| problem_view(p)) =~= pv.push(
                        problem_view(item),
                    ));
                },
            }
            proof {
                assert(scan_args(args, 0).0 =~= rejected@.map_values(|s: String| s@) + rest.0);
                assert(scan_args(args, 0).1 =~= problems@.map_values(|p: ArgProblem| problem_view(p))
                    + rest.1);
            }
            i = i + 1;
        } else {
            assert(v@.subrange(0, len as int) == a);
            let kind = lookup_flag(&v, 0, len);
            match kind {
                Some(FlagKind::Value(rule)) => {
                    if i + 1 < n {
                        let ghost rest = scan_args(args, i + 2);
                        let value = &extra_args[i + 1];
                        assert(value@ == args[i + 1]);
                        let pr = check_value(rule, value.as_str());
                        match pr {
                            Some(q) => {
                                let item = ArgProblem::Invalid { flag: arg.clone(), problem: q };
                                problems.push(item);
                                assert(problems@.map_values(|p: ArgProblem| problem_view(p)) =~= pv.push(
                                    problem_view(item),
                                ));
                            },
                            None => {},
                        }
                        proof {
                            assert(scan_args(args, 0).0 =~= rejected@.map_values(|s: String| s@)
                                + rest.0);
                            assert(scan_args(args, 0).1 =~= problems@.map_values(
                                |p: ArgProblem| problem_view(p),
                            ) + rest.1);
                        }
                        i = i + 2;
                    } else {
                        let item = ArgProblem::MissingValue { flag: arg.clone() };
                        problems.push(item);
                        assert(problems@.map_values(|p: ArgProblem| problem_view(p)) =~= pv.push(
                            problem_view(item),
                        ));
                        proof {
                            assert(scan_args(args, n as int).0 =~= Seq::<Seq<char>>::empty());
                            assert(scan_args(args, 0).0 =~= rejected@.map_values(|s: String| s@)
                                + scan_args(args, n as int).0);
                            assert(scan_args(args, 0).1 =~= problems@.map_values(
                                |p: ArgProblem| problem_view(p),
                            ) + scan_args(args, n as int).1);
                        }
                        i = n;
                    }
                },
                None => {
                    let ghost rest = scan_args(args, i + 1);
                    if dashes_prefix(&v, len) {
                        rejected.push(arg.clone());
                        assert(rejected@.map_values(|s: String| s@) =~= rv.push(a));
                    }
                    proof {
                        assert(scan_args(args, 0).0 =~= rejected@.map_values(|s: String| s@) + rest.0);
                        assert(scan_args(args, 0).1 =~= problems@.map_values(
                            |p: ArgProblem| problem_view(p),
                        ) + rest.1);
                    }
                    i = i + 1;
                },
                Some(FlagKind::Switch) => {
                    i = i + 1;
                },
            }
        }
    }
    proof {
        assert(scan_args(args, n as int).0 =~= Seq::<Seq<char>>::empty());
        assert(scan_args(args, n as int).1 =~= Seq::<ArgIssue>::empty());
        assert(scan_args(args, 0).0 =~= rejected@.map_values(|s: String| s@));
        assert(scan_args(args, 0).1 =~= problems@.map_values(|p: ArgProblem| problem_view(p)));
    }
    proof {
        lemma_extra_args_accept_exactly_allowed_tokens(args, 0);
    }
    if rejected.len() == 0 && problems.len() == 0 {
        Ok(())
    } else {
        Err(ExtraArgsError { rejected, problems })
    }
}

/// Text of a float parse failure (`ParseFloatError`'s message).
pub open spec fn float_error_text(empty: bool) -> Seq<char> {
    if empty {
        "cannot parse float from empty string"@
    } else {
        "invalid float literal"@
    }
}

/// Text of an integer parse failure (`ParseIntError`'s message).
pub open spec fn int_error_text(e: IntParseError) -> Seq<char> {
    match e {
        IntParseError::Empty => "cannot parse integer from empty string"@,
        IntParseError::InvalidDigit => "invalid digit found in string"@,
        IntParseError::PosOverflow => "number too large to fit in target type"@,
    }
}

/// Text of a float bound.
pub open spec fn range_text(f: FloatRule) -> Seq<char> {
    match f {
        FloatRule::FiniteF32 => "must be a finite number"@,
        FloatRule::NonnegativeF32 => "must be a finite nonnegative number"@,
        FloatRule::PositiveF32 => "must be a finite positive number"@,
        FloatRule::PositiveF64 => "must be a finite positive number"@,
        FloatRule::NormalizedF32 => "must be a finite number in the range 0..=1"@,
        FloatRule::DensityF32 => "must be a finite number in the range 0..=3"@,
        FloatRule::HourF32 => "must be a finite hour in the range 0..=24"@,
        FloatRule::LatitudeF64 => "must be a finite latitude in the range -90..=90"@,
        FloatRule::LongitudeF64 => "must be a finite longitude in the range -180..=180"@,
    }
}

/// Text describing a rejected value.
pub open spec fn problem_text(p: ValueProblem) -> Seq<char> {
    match p {
        ValueProblem::InvalidFloat { empty } => "invalid float: "@ + float_error_text(empty),
        ValueProblem::InvalidHour { empty } => "invalid hour: "@ + float_error_text(empty),
        ValueProblem::InvalidInteger(e) => "invalid integer: "@ + int_error_text(e),
        ValueProblem::OutOfRange(f) => range_text(f),
        ValueProblem::BelowOne => "must be at least 1"@,
        ValueProblem::EmptyPath => "screenshot path must not be empty"@,
        ValueProblem::NulInPath => "screenshot path must not contain NUL bytes"@,
        ValueProblem::ParentDirInPath => "screenshot path must not contain '..'"@,
        ValueProblem::UnknownVisualPreset => "must be one of: performance, balanced, showcase"@,
        ValueProblem::UnknownLandmarkDetail => "must be one of: off, simple, showcase"@,
    }
}

/// Text of one issue.
pub open spec fn issue_text(i: ArgIssue) -> Seq<char> {
    match i {
        ArgIssue::Invalid(flag, p) => flag + ": "@ + problem_text(p),
        ArgIssue::UnexpectedValue(flag) => flag + " does not take a value"@,
        ArgIssue::MissingValue(flag) => flag + " requires a value"@,
    }
}

/// The allowed flag names in listing order.
pub open spec fn allowed_flag_names() -> Seq<Seq<char>> {
    renderer_flag_table().map_values(|e: (Seq<char>, FlagKind)| e.0)
}

/// The full error message: the rejected flags with the allowlist, then each
/// issue, all separated by `"; "`.
pub open spec fn extra_args_message(rejected: Seq<Seq<char>>, issues: Seq<ArgIssue>) -> Seq<char> {
    let head = if rejected.len() > 0 {
        seq![
            "unsupported renderer flag(s): "@ + join_seqs(rejected, ", "@) + ". Allowed flags: "@
                + join_seqs(allowed_flag_names(), ", "@),
        ]
    } else {
        Seq::empty()
    };
    join_seqs(head + issues.map_values(|i: ArgIssue| issue_text(i)), "; "@)
}

fn float_error_string(empty: bool) -> (r: String)
    ensures
        r@ == float_error_text(empty),
{
    if empty {
        String::from_str("cannot parse float from empty string")
    } else {
        String::from_str("invalid float literal")
    }
}

pub(crate) fn problem_string(p: ValueProblem) -> (r: String)
    ensures
        r@ == problem_text(p),
{
    match p {
        ValueProblem::InvalidFloat { empty } => {
            let mut r = String::from_str("invalid float: ");
            r.append(float_error_string(empty).as_str());
            r
        },
        ValueProblem::InvalidHour { empty } => {
            let mut r = String::from_str("invalid hour: ");
            r.append(float_error_string(empty).as_str());
            r
        },
        ValueProblem::InvalidInteger(e) => {
            let mut r = String::from_str("invalid integer: ");
            match e {
                IntParseError::Empty => r.append("cannot parse integer from empty string"),
                IntParseError::InvalidDigit => r.append("invalid digit found in string"),
                IntParseError::PosOverflow => r.append("number too large to fit in target type"),
            }
            r
        },
        ValueProblem::OutOfRange(f) => match f {
            FloatRule::FiniteF32 => String::from_str("must be a finite number"),
            FloatRule::NonnegativeF32 => String::from_str("must be a finite nonnegative number"),
            FloatRule::PositiveF32 => String::from_str("must be a finite positive number"),
            FloatRule::PositiveF64 => String::from_str("must be a finite positive number"),
            FloatRule::NormalizedF32 => String::from_str(
                "must be a finite number in the range 0..=1",
            ),
            FloatRule::DensityF32 => String::from_str("must be a finite number in the range 0..=3"),
            FloatRule::HourF32 => String::from_str("must be a finite hour in the range 0..=24"),
            FloatRule::LatitudeF64 => String::from_str(
                "must be a finite latitude in the range -90..=90",
            ),
            FloatRule::LongitudeF64 => String::from_str(
                "must be a finite longitude in the range -180..=180",
            ),
        },
        ValueProblem::BelowOne => String::from_str("must be at least 1"),
        ValueProblem::EmptyPath => String::from_str("screenshot path must not be empty"),
        ValueProblem::NulInPath => String::from_str("screenshot path must not contain NUL bytes"),
        ValueProblem::ParentDirInPath => String::from_str(
            "screenshot path must not contain '..'",
        ),
        ValueProblem::UnknownVisualPreset => String::from_str(
            "must be one of: performance, balanced, showcase",
        ),
        ValueProblem::UnknownLandmarkDetail => String::from_str(
            "must be one of: off, simple, showcase",
        ),
    }
}

fn issue_string(p: &ArgProblem) -> (r: String)
    ensures
        r@ == issue_text(problem_view(*p)),
{
    match p {
        ArgProblem::Invalid { flag, problem } => {
            let mut r = flag.clone();
            r.append(": ");
            r.append(problem_string(*problem).as_str());
            r
        },
        ArgProblem::UnexpectedValue { flag } => {
            let mut r = flag.clone();
            r.append(" does not take a value");
            r
        },
        ArgProblem::MissingValue { flag } => {
            let mut r = flag.clone();
            r.append(" requires a value");
            r
        },
    }
}

impl ExtraArgsError {
    /// The error message (what the error displays as).
    pub fn message(&self) -> (r: String)
        ensures
            r@ == extra_args_message(self.rejected_view(), self.problems_view()),
    {
        let mut parts: Vec<String> = Vec::new();
        if self.rejected.len() > 0 {
            let mut head = String::from_str("unsupported renderer flag(s): ");
            head.append(join_strings(&self.rejected, ", ").as_str());
            head.append(". Allowed flags: ");
            let table = renderer_flags();
            let mut names: Vec<String> = Vec::new();
            let mut k: usize = 0;
            while k < table.len()
                invariant
                    k <= table.len(),
                    table@.map_values(|p: (&'static str, FlagKind)| (p.0@, p.1))
                        == renderer_flag_table(),
                    names@.map_values(|s: String| s@) =~= allowed_flag_names().take(k as int),
                decreases table.len() - k,
            {
                let name = String::from_str(table[k].0);
                assert(table@.map_values(|p: (&'static str, FlagKind)| (p.0@, p.1))[k as int]
                    == (table@[k as int].0@, table@[k as int].1));
                assert(allowed_flag_names()[k as int] == renderer_flag_table()[k as int].0);
                assert(name@ == allowed_flag_names()[k as int]);
                assert(allowed_flag_names().len() == table@.len());
                let ghost before = names@.map_values(|s: String| s@);
                names.push(name);
                assert(names@.map_values(|s: String| s@) =~= before.push(name@));
                k = k + 1;
                assert(names@.map_values(|s: String| s@) =~= allowed_flag_names().take(k as int));
            }
            assert(allowed_flag_names().take(table.len() as int) =~= allowed_flag_names());
            head.append(join_strings(&names, ", ").as_str());
            assert(head@ =~= "unsupported renderer flag(s): "@ + join_seqs(self.rejected_view(), ", "@)
                + ". Allowed flags: "@ + join_seqs(allowed_flag_names(), ", "@));
            parts.push(head);
            assert(parts@.map_values(|s: String| s@) =~= seq![head@]);
        } else {
            assert(parts@.map_values(|s: String| s@) =~= Seq::<Seq<char>>::empty());
        }
        let ghost head_view = parts@.map_values(|s: String| s@);
        let mut j: usize = 0;
        while j < self.problems.len()
            invariant
                j <= self.problems.len(),
                parts@.map_values(|s: String| s@) =~= head_view + self.problems_view().take(
                    j as int,
                ).map_values(|i: ArgIssue| issue_text(i)),
            decreases self.problems.len() - j,
        {
            let t = issue_string(&self.problems[j]);
            assert(self.problems_view()[j as int] == problem_view(self.problems@[j as int]));
            let ghost before = parts@.map_values(|s: String| s@);
            parts.push(t);
            assert(parts@.map_values(|s: String| s@) =~= before.push(t@));
            j = j + 1;
            assert(parts@.map_values(|s: String| s@) =~= head_view + self.problems_view().take(
                j as int,
            ).map_values(|i: ArgIssue| issue_text(i)));
        }
        assert(self.problems_view().take(self.problems.len() as int) =~= self.problems_view());
        assert(parts@.map_values(|s: String| s@) =~= head_view + self.problems_view().map_values(
            |i: ArgIssue| issue_text(i),
        ));
        join_strings(&parts, "; ")
    }
}


/// `value` checked against `rule`, as the renderer's own parser checks it:
/// `Ok` when it is accepted, otherwise the text of the problem.
pub open spec fn value_check(rule: ValueRule, value: Seq<char>) -> Result<(), Seq<char>> {
    match value_problem(rule, value) {
        None => Ok(()),
        Some(p) => Err(problem_text(p)),
    }
}

/// The result of a value check, with the error taken by its text.
pub open spec fn check_view(r: Result<(), String>) -> Result<(), Seq<char>> {
    match r {
        Ok(()) => Ok(()),
        Err(e) => Err(e@),
    }
}

fn validate_value(rule: ValueRule, value: &str) -> (r: Result<(), String>)
    ensures
        check_view(r) == value_check(rule, value@),
{
    match check_value(rule, value) {
        None => Ok(()),
        Some(p) => Err(problem_string(p)),
    }
}

/// A screenshot path: nonempty, without NUL and without a `..` component.
pub fn validate_screenshot_path(value: &str) -> (r: Result<(), String>)
    ensures
        check_view(r) == value_check(ValueRule::ScreenshotPath, value@),
{
    validate_value(ValueRule::ScreenshotPath, value)
}

/// A float text whose `f32` value is finite.
pub fn validate_finite_f32(value: &str) -> (r: Result<(), String>)
    ensures
        check_view(r) == value_check(ValueRule::Float(FloatRule::FiniteF32), value@),
{
    validate_value(ValueRule::Float(FloatRule::FiniteF32), value)
}

/// A float text whose `f32` value is finite and `>= 0`.
pub fn validate_nonnegative_f32(value: &str) -> (r: Result<(), String>)
    ensures
        check_view(r) == value_check(ValueRule::Float(FloatRule::NonnegativeF32), value@),
{
    validate_value(ValueRule::Float(FloatRule::NonnegativeF32), value)
}

/// A float text whose `f32` value is finite and `> 0`.
pub fn validate_positive_f32(value: &str) -> (r: Result<(), String>)
    ensures
        check_view(r) == value_check(ValueRule::Float(FloatRule::PositiveF32), value@),
{
    validate_value(ValueRule::Float(FloatRule::PositiveF32), value)
}

/// A float text whose `f64` value is finite and `> 0`.
pub fn validate_positive_f64(value: &str) -> (r: Result<(), String>)
    ensures
        check_view(r) == value_check(ValueRule::Float(FloatRule::PositiveF64), value@),
{
    validate_value(ValueRule::Float(FloatRule::PositiveF64), value)
}

/// A float text whose `f32` value is finite and in `0..=1`.
pub fn validate_normalized_f32(value: &str) -> (r: Result<(), String>)
    ensures
        check_view(r) == value_check(ValueRule::Float(FloatRule::NormalizedF32), value@),
{
    validate_value(ValueRule::Float(FloatRule::NormalizedF32), value)
}

/// A float text whose `f32` value is finite and in `0..=3`.
pub fn validate_density_multiplier(value: &str) -> (r: Result<(), String>)
    ensures
        check_view(r) == value_check(ValueRule::Float(FloatRule::DensityF32), value@),
{
    validate_value(ValueRule::Float(FloatRule::DensityF32), value)
}

/// A `usize` text of at least 1.
pub fn validate_positive_usize(value: &str) -> (r: Result<(), String>)
    ensures
        check_view(r) == value_check(ValueRule::PositiveUsize, value@),
{
    validate_value(ValueRule::PositiveUsize, value)
}

/// A float text whose `f32` value is a finite hour in `0..=24`.
pub fn validate_hour_of_day(value: &str) -> (r: Result<(), String>)
    ensures
        check_view(r) == value_check(ValueRule::Float(FloatRule::HourF32), value@),
{
    validate_value(ValueRule::Float(FloatRule::HourF32), value)
}

/// One of `performance`, `balanced`, `showcase`.
pub fn validate_visual_preset(value: &str) -> (r: Result<(), String>)
    ensures
        check_view(r) == value_check(ValueRule::VisualPreset, value@),
{
    validate_value(ValueRule::VisualPreset, value)
}

/// One of `off`, `simple`, `showcase`.
pub fn validate_landmark_detail(value: &str) -> (r: Result<(), String>)
    ensures
        check_view(r) == value_check(ValueRule::LandmarkDetail, value@),
{
    validate_value(ValueRule::LandmarkDetail, value)
}

/// A `usize` of at least 1, as the `--synthetic-tree-cap` and
/// `--max-uploaded-tiles` options read it.
pub fn positive_usize(s: &str) -> (r: Result<usize, String>)
    ensures
        match r {
            Ok(n) => parse_usize_text(s@) == Ok::<nat, IntParseError>(n as nat) && n >= 1,
            Err(e) => value_problem(ValueRule::PositiveUsize, s@) matches Some(p) && e@
                == problem_text(p),
        },
        r is Ok <==> value_problem(ValueRule::PositiveUsize, s@) is None,
{
    match parse_usize(s) {
        Err(e) => Err(problem_string(ValueProblem::InvalidInteger(e))),
        Ok(n) => if n < 1 {
            Err(problem_string(ValueProblem::BelowOne))
        } else {
            Ok(n)
        },
    }
}


/// The API's check of a count option accepts exactly what the renderer's
/// command-line parser for it accepts: a `usize` text of at least 1.
pub proof fn lemma_count_check_matches_cli_parser(value: Seq<char>)
    ensures
        value_check(ValueRule::PositiveUsize, value) is Ok <==> (parse_usize_text(value) matches Ok(
            n,
        ) && n >= 1),
{
}


/// The check of a spawn coordinate given on the command line: the text must
/// be a float whose `f64` value is finite and within the bound of `rule`
/// (latitude or longitude), or the error names what is wrong.
pub open spec fn coordinate_check(rule: FloatRule, value: Seq<char>) -> Result<(), Seq<char>> {
    let what = if rule == FloatRule::LatitudeF64 {
        "invalid latitude: "@
    } else {
        "invalid longitude: "@
    };
    match parse_float_text(value) {
        None => Err(what + float_error_text(value.len() == 0)),
        Some(t) => if float_rule_holds(t, rule) {
            Ok(())
        } else {
            Err(range_text(rule))
        },
    }
}

fn check_coordinate(rule: FloatRule, value: &str) -> (r: Result<(), String>)
    requires
        rule == FloatRule::LatitudeF64 || rule == FloatRule::LongitudeF64,
    ensures
        check_view(r) == coordinate_check(rule, value@),
{
    match check_float_rule(value, rule) {
        None => {
            let mut m = if rule == FloatRule::LatitudeF64 {
                String::from_str("invalid latitude: ")
            } else {
                String::from_str("invalid longitude: ")
            };
            let empty = value.unicode_len() == 0;
            m.append(float_error_string(empty).as_str());
            Err(m)
        },
        Some(true) => Ok(()),
        Some(false) => Err(problem_string(ValueProblem::OutOfRange(rule))),
    }
}

/// A spawn latitude: a finite `f64` in `-90..=90`.
pub fn check_latitude_text(value: &str) -> (r: Result<(), String>)
    ensures
        check_view(r) == coordinate_check(FloatRule::LatitudeF64, value@),
{
    check_coordinate(FloatRule::LatitudeF64, value)
}

/// A spawn longitude: a finite `f64` in `-180..=180`.
pub fn check_longitude_text(value: &str) -> (r: Result<(), String>)
    ensures
        check_view(r) == coordinate_check(FloatRule::LongitudeF64, value@),
{
    check_coordinate(FloatRule::LongitudeF64, value)
}

} // verus!
