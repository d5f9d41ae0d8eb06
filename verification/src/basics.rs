//! What texts, numbers, names and counts come to.

use crate::codes::{context_of, decision_number, progress_state_of, SbArbitrationContext};
use crate::coordinator::arbitration::ArbitrationDecision;
use crate::draft::place_of_name;
use crate::guid::Uuid;
use crate::index::tables::NUMERIC_ID_PROPERTY;
use crate::index::validation::{ValidationIssueView, ValidationSeverity};
use crate::key::{key_of, KeyErrorView, KeyView};
use crate::number::{Real, INFINITY_BITS, SIGN_BIT};
use crate::policy::keywords::{bool_of, keyword, kind_of};
use crate::policy::ZonePolicyKind;
use crate::properties::value_at;
use crate::robot::{global_position, local_position, PositionFrame, RobotProgressState};
use crate::startup::{errors_among, invocation_of, switches_on, zone_lines, ZoneLineView};
use crate::text::{
    decimal_value, integer_of, is_digit, is_space, lemma_case_survives_trimming, lowered,
    trimmed, without_leading_space, without_trailing_space,
};
use crate::words::{
    access_mode_named, arbitration_word, policy_kind_word, progress_state_named,
};
use crate::workspace::{zone_at, Geo, Point, Workspace};
use vstd::arithmetic::power2::{lemma_pow2_pos, pow2};
use vstd::prelude::*;

verus! {

// ---------------------------------------------------------------------------
// texts
// ---------------------------------------------------------------------------

proof fn lemma_front_is_cut(s: Seq<char>) -> (a: int)
    ensures
        0 <= a <= s.len(),
        without_leading_space(s) == s.subrange(a, s.len() as int),
        forall|i: int| 0 <= i < a ==> is_space(#[trigger] s[i]),
        a < s.len() ==> !is_space(s[a]),
    decreases s.len(),
{
    if s.len() > 0 && is_space(s[0]) {
        let rest = s.drop_first();
        let a = lemma_front_is_cut(rest);
        assert(rest.subrange(a, rest.len() as int) =~= s.subrange(a + 1, s.len() as int));
        assert forall|i: int| 0 <= i < a + 1 implies is_space(#[trigger] s[i]) by {
            if i > 0 {
                assert(s[i] == rest[i - 1]);
            }
        }
        if a < rest.len() {
            assert(s[a + 1] == rest[a]);
        }
        a + 1
    } else {
        assert(s.subrange(0, s.len() as int) =~= s);
        0
    }
}

proof fn lemma_back_is_cut(s: Seq<char>) -> (b: int)
    ensures
        0 <= b <= s.len(),
        without_trailing_space(s) == s.subrange(0, b),
        forall|i: int| b <= i < s.len() ==> is_space(#[trigger] s[i]),
        b > 0 ==> !is_space(s[b - 1]),
    decreases s.len(),
{
    if s.len() > 0 && is_space(s.last()) {
        let rest = s.drop_last();
        let b = lemma_back_is_cut(rest);
        assert(rest.subrange(0, b) =~= s.subrange(0, b));
        assert forall|i: int| b <= i < s.len() implies is_space(#[trigger] s[i]) by {
            if i < rest.len() {
                assert(s[i] == rest[i]);
            }
        }
        if b > 0 {
            assert(s[b - 1] == rest[b - 1]);
        }
        b
    } else {
        assert(s.subrange(0, s.len() as int) =~= s);
        s.len() as int
    }
}

/// Trimming a text takes whitespace from its ends, and nothing else, until it
/// neither begins nor ends with any.
pub proof fn lemma_what_trimming_takes(s: Seq<char>) -> (w: (int, int))
    ensures
        0 <= w.0 <= w.1 <= s.len(),
        trimmed(s) == s.subrange(w.0, w.1),
        forall|i: int| 0 <= i < w.0 ==> is_space(#[trigger] s[i]),
        forall|i: int| w.1 <= i < s.len() ==> is_space(#[trigger] s[i]),
        w.0 < w.1 ==> !is_space(s[w.0]) && !is_space(s[w.1 - 1]),
{
    let a = lemma_front_is_cut(s);
    let rest = s.subrange(a, s.len() as int);
    let b = lemma_back_is_cut(rest);
    assert(rest.subrange(0, b) =~= s.subrange(a, a + b));
    assert forall|i: int| a + b <= i < s.len() implies is_space(#[trigger] s[i]) by {
        assert(s[i] == rest[i - a]);
    }
    if b > 0 {
        assert(rest[0] == s[a]);
        assert(rest[b - 1] == s[a + b - 1]);
    }
    (a, a + b)
}

/// A text in lower case is as long as before, has no capitals of the Latin
/// alphabet left, and is the same everywhere else.
pub proof fn lemma_what_lower_case_is(s: Seq<char>, i: int)
    requires
        0 <= i < s.len(),
    ensures
        lowered(s).len() == s.len(),
        !('A' <= lowered(s)[i] <= 'Z'),
        !('A' <= s[i] <= 'Z') ==> lowered(s)[i] == s[i],
        'A' <= s[i] <= 'Z' ==> lowered(s)[i] as u32 == s[i] as u32 + 32,
{
}

/// Neither the case of letters nor blanks at the ends matter to what a text
/// switches on, to a word for yes or no, or to the word for a kind of zone.
pub proof fn lemma_case_and_blanks_do_not_matter(a: Seq<char>, b: Seq<char>)
    requires
        lowered(a) == lowered(b) || trimmed(a) == trimmed(b),
    ensures
        keyword(a) == keyword(b),
        bool_of(a) == bool_of(b),
        kind_of(a) == kind_of(b),
        switches_on(a) == switches_on(b),
{
    if lowered(a) == lowered(b) {
        lemma_case_survives_trimming(a, b);
    }
}

/// The words that switch something on are words for yes.
pub proof fn lemma_what_switches_on(text: Seq<char>)
    ensures
        switches_on(text) <==> keyword(text) == "1"@ || keyword(text) == "true"@ || keyword(text)
            == "yes"@,
        switches_on(text) ==> bool_of(text) == Some(true),
{
}

/// A text reads as an integer exactly if it is made of digits, of which there is
/// one at least, behind a plus sign or none, and the number that they stand for is
/// not too large.
pub proof fn lemma_when_a_text_is_an_integer(s: Seq<char>, d: Seq<char>)
    requires
        d == s && !(s.len() > 0 && s[0] == '+') || s == seq!['+'] + d,
    ensures
        integer_of(s) is Some <==> d.len() > 0 && (forall|i: int|
            0 <= i < d.len() ==> '0' <= #[trigger] d[i] <= '9') && decimal_value(d) <= u64::MAX,
        integer_of(s) matches Some(n) ==> n == decimal_value(d),
{
    if s.len() > 0 && s[0] == '+' {
        assert(s.drop_first() =~= d);
    }
    assert(crate::text::unsigned_part(s) == d);
    if crate::text::all_digits(d) {
        assert forall|i: int| 0 <= i < d.len() implies '0' <= #[trigger] d[i] <= '9' by {
            assert(is_digit(d[i]));
        }
    }
}

// ---------------------------------------------------------------------------
// ticks
// ---------------------------------------------------------------------------

/// A quantity that is negative or no number takes no ticks, and an infinite one
/// takes as many as there are.
pub proof fn lemma_quantities_without_ticks(r: Real)
    ensures
        r.is_nan() ==> r.ticks() == 0,
        r.at_most(Real { bits: 0 }) ==> r.ticks() == 0,
        r.bits == INFINITY_BITS ==> r.ticks() == u64::MAX,
{
}

/// A finite positive quantity takes the least whole number of ticks that is not
/// below it, as far as there are so many.
pub proof fn lemma_least_ticks(r: Real)
    requires
        !r.is_nan(),
        r.rank() > 0,
        r.bits < INFINITY_BITS,
        r.ticks() < u64::MAX,
    ensures
        r.scale() >= 1075 ==> r.ticks() == r.significand() * pow2((r.scale() - 1075) as nat),
        r.scale() < 1075 ==> {
            let unit = pow2((1075 - r.scale()) as nat);
            r.ticks() * unit >= r.significand() && (r.ticks() - 1) * unit < r.significand()
        },
{
    if r.scale() < 1075 {
        let unit = pow2((1075 - r.scale()) as nat) as int;
        lemma_pow2_pos((1075 - r.scale()) as nat);
        let s = r.significand();
        let w = (s + unit - 1) / unit;
        vstd::arithmetic::div_mod::lemma_fundamental_div_mod(s + unit - 1, unit);
        vstd::arithmetic::div_mod::lemma_mod_bound(s + unit - 1, unit);
        assert(w * unit >= s && (w - 1) * unit < s) by (nonlinear_arith)
            requires
                unit > 0,
                s + unit - 1 == unit * w + (s + unit - 1) % unit,
                0 <= (s + unit - 1) % unit < unit,
        ;
        assert(w >= 0) by (nonlinear_arith)
            requires
                w * unit >= s,
                s >= 0,
                unit > 0,
        ;
    }
}

/// Of two numbers one is below the other or the other is not above it. Nothing is
/// below itself, and the two zeros are not told apart.
pub proof fn lemma_numbers_are_in_order(a: Real, b: Real, c: Real)
    ensures
        !a.is_nan() && !b.is_nan() ==> (a.less_than(b) <==> !b.at_most(a)),
        a.is_nan() || b.is_nan() ==> !a.less_than(b) && !a.at_most(b),
        !a.less_than(a),
        a.less_than(b) && b.less_than(c) ==> a.less_than(c),
        (Real { bits: SIGN_BIT }).at_most(Real { bits: 0 }),
        (Real { bits: 0 }).at_most(Real { bits: SIGN_BIT }),
        a.bits > SIGN_BIT && !a.is_nan() ==> a.less_than(Real { bits: 0 }),
        0 < b.bits <= INFINITY_BITS ==> (Real { bits: 0 }).less_than(b),
        a.bits < b.bits <= INFINITY_BITS ==> a.less_than(b),
{
}

// ---------------------------------------------------------------------------
// positions
// ---------------------------------------------------------------------------

/// What a robot reports of where it is is kept in the frame that it reports in.
/// The other frame is what was derived, and zero where nothing was.
pub proof fn lemma_reported_frame_is_kept(
    p: Point,
    g: Geo,
    global: Option<Geo>,
    local: Option<Point>,
)
    ensures
        ({
            let here = local_position(p, global);
            &&& here.reported == PositionFrame::Local
            &&& here.x == p.x && here.y == p.y && here.z == p.z
            &&& here.converted <==> global is Some
            &&& global matches Some(d) ==> here.lat == d.latitude && here.lon == d.longitude
                && here.alt == d.altitude
            &&& global is None ==> here.lat.bits == 0 && here.lon.bits == 0 && here.alt.bits == 0
        }),
        ({
            let there = global_position(g, local);
            &&& there.reported == PositionFrame::Global
            &&& there.lat == g.latitude && there.lon == g.longitude && there.alt == g.altitude
            &&& there.converted <==> local is Some
            &&& local matches Some(d) ==> there.x == d.x && there.y == d.y && there.z == d.z
            &&& local is None ==> there.x.bits == 0 && there.y.bits == 0 && there.z.bits == 0
        }),
{
}

// ---------------------------------------------------------------------------
// keys
// ---------------------------------------------------------------------------

/// A text is a numeric key exactly if it reads as an integer, and a password
/// exactly if something stands behind the word for one. A decentralized identifier
/// is told apart from what is malformed.
pub proof fn lemma_what_key_a_text_is(raw: Seq<char>, did_method: Option<Seq<char>>)
    ensures
        ({
            let text = trimmed(raw);
            let key = key_of(raw, did_method);
            let pass = text.len() >= 5 && text.take(5) == "pass:"@;
            let did = text.len() >= 4 && text.take(4) == "did:"@;
            &&& integer_of(text) matches Some(n) ==> key == Ok::<KeyView, KeyErrorView>(
                KeyView::Numeric(n),
            )
            &&& integer_of(text) is None && pass && text.len() > 5 ==> key == Ok::<
                KeyView,
                KeyErrorView,
            >(KeyView::Pass(text.skip(5)))
            &&& integer_of(text) is None && pass && text.len() == 5 ==> key == Err::<
                KeyView,
                KeyErrorView,
            >(KeyErrorView::Malformed)
            &&& integer_of(text) is None && !pass ==> key is Err
            &&& integer_of(text) is None && !pass && did ==> (did_method matches Some(method)
                ==> key == Err::<KeyView, KeyErrorView>(
                KeyErrorView::Unsupported("did:"@ + method),
            ))
            &&& integer_of(text) is None && !pass && (!did || did_method is None) ==> key == Err::<
                KeyView,
                KeyErrorView,
            >(KeyErrorView::Malformed)
        }),
{
    reveal_strlit("pass:");
    reveal_strlit("did:");
    assert("pass:"@.len() == 5);
    assert("did:"@.len() == 4);
}

// ---------------------------------------------------------------------------
// numbers and words that stand for something
// ---------------------------------------------------------------------------

/// Different decisions have different numbers and different words.
pub proof fn lemma_decisions_are_told_apart(a: ArbitrationDecision, b: ArbitrationDecision)
    ensures
        decision_number(a) == decision_number(b) ==> a == b,
        arbitration_word(a) == arbitration_word(b) ==> a == b,
        decision_number(ArbitrationDecision::Proceed) < decision_number(ArbitrationDecision::Yield)
            < decision_number(ArbitrationDecision::Replan),
{
    reveal_strlit("proceed");
    reveal_strlit("yield");
    reveal_strlit("replan");
    assert("proceed"@.len() == 7 && "yield"@.len() == 5 && "replan"@.len() == 6);
}

/// Different kinds of zones have different words.
pub proof fn lemma_kinds_are_told_apart(a: ZonePolicyKind, b: ZonePolicyKind)
    ensures
        policy_kind_word(a) == policy_kind_word(b) ==> a == b,
{
    reveal_strlit("informational");
    reveal_strlit("exclusive");
    reveal_strlit("shared");
    reveal_strlit("capacity_limited");
    reveal_strlit("corridor");
    reveal_strlit("replanning");
    reveal_strlit("restricted");
    reveal_strlit("no_stop");
    reveal_strlit("slowdown");
    assert("informational"@.len() == 13 && "exclusive"@.len() == 9 && "shared"@.len() == 6);
    assert("capacity_limited"@.len() == 16 && "no_stop"@.len() == 7);
    assert("corridor"@.len() == 8 && "slowdown"@.len() == 8);
    assert("corridor"@[0] == 'c' && "slowdown"@[0] == 's');
    assert("replanning"@.len() == 10 && "restricted"@.len() == 10);
    assert("replanning"@[2] == 'p' && "restricted"@[2] == 's');
}

/// Each state has its number and its word, and whatever stands for none is idle.
pub proof fn lemma_states_are_told_apart(n: u8, w: Seq<char>)
    ensures
        progress_state_of(n) == RobotProgressState::FollowingRoute <==> n == 1,
        progress_state_of(n) == RobotProgressState::Waiting <==> n == 2,
        progress_state_of(n) == RobotProgressState::Queued <==> n == 3,
        progress_state_of(n) == RobotProgressState::Blocked <==> n == 4,
        progress_state_of(n) == RobotProgressState::Replanning <==> n == 5,
        progress_state_named(w) == RobotProgressState::FollowingRoute <==> w == "following_route"@,
        progress_state_named(w) == RobotProgressState::Waiting <==> w == "waiting"@,
        progress_state_named(w) == RobotProgressState::Queued <==> w == "queued"@,
        progress_state_named(w) == RobotProgressState::Blocked <==> w == "blocked"@,
        progress_state_named(w) == RobotProgressState::Replanning <==> w == "replanning"@,
        access_mode_named(w) == crate::claim::ClaimAccessMode::Shared <==> w == "shared"@,
{
    reveal_strlit("idle");
    reveal_strlit("following_route");
    reveal_strlit("waiting");
    reveal_strlit("queued");
    reveal_strlit("blocked");
    reveal_strlit("replanning");
    assert("idle"@.len() == 4 && "following_route"@.len() == 15 && "queued"@.len() == 6);
    assert("replanning"@.len() == 10);
    assert("waiting"@.len() == 7 && "blocked"@.len() == 7);
    assert("waiting"@[0] == 'w' && "blocked"@[0] == 'b');
}

/// What numbers say of two robots that meet is taken over as it is, with every
/// number but zero for yes.
pub proof fn lemma_context_is_taken_over(c: SbArbitrationContext)
    ensures
        ({
            let x = context_of(c);
            &&& x.self_priority == c.self_priority && x.other_priority == c.other_priority
            &&& x.self_holds_lease <==> c.self_holds_lease != 0
            &&& x.other_holds_lease <==> c.other_holds_lease != 0
            &&& x.self_is_emergency <==> c.self_is_emergency != 0
            &&& x.other_is_emergency <==> c.other_is_emergency != 0
            &&& x.self_state == progress_state_of(c.self_state)
            &&& x.other_state == progress_state_of(c.other_state)
            &&& x.self_wait_ticks == c.self_wait_ticks && x.other_wait_ticks == c.other_wait_ticks
            &&& x.self_remaining_steps == c.self_remaining_steps
            &&& x.other_remaining_steps == c.other_remaining_steps
        }),
{
}

// ---------------------------------------------------------------------------
// drafts and beginnings
// ---------------------------------------------------------------------------

/// A name stands for the last node that was given it, and for none where no node
/// was.
pub proof fn lemma_what_a_name_stands_for(names: Seq<Seq<char>>, name: Seq<char>)
    requires
        names.len() <= usize::MAX,
    ensures
        place_of_name(names, name) is Some <==> names.contains(name),
        place_of_name(names, name) matches Some(k) ==> k < names.len() && names[k as int] == name
            && forall|j: int| k < j < names.len() ==> #[trigger] names[j] != name,
    decreases names.len(),
{
    if names.len() > 0 {
        let rest = names.drop_last();
        lemma_what_a_name_stands_for(rest, name);
        assert(names[names.len() - 1] == names.last());
        if names.contains(name) {
            let k = choose|k: int| 0 <= k < names.len() && names[k] == name;
            if k < rest.len() {
                assert(rest[k] == name);
            }
        }
        if names.last() != name {
            if let Some(k) = place_of_name(rest, name) {
                assert forall|j: int| k < j < names.len() implies #[trigger] names[j] != name by {
                    if j < rest.len() {
                        assert(rest[j] == names[j]);
                    }
                }
            }
        }
    }
}

/// As many findings are errors as have that severity.
pub proof fn lemma_how_many_are_errors(issues: Seq<ValidationIssueView>)
    ensures
        errors_among(issues) == issues.filter(
            |i: ValidationIssueView| i.severity == ValidationSeverity::Error,
        ).len(),
    decreases issues.len(),
{
    reveal(Seq::filter);
    if issues.len() > 0 {
        lemma_how_many_are_errors(issues.drop_last());
    }
}

/// The first argument names a directory, unless it says that there is none, and
/// the second an address. What is left out has a default.
pub proof fn lemma_what_arguments_say(args: Seq<Seq<char>>)
    ensures
        ({
            let i = invocation_of(args);
            &&& args.len() > 0 && args[0] == "--no-map"@ ==> i.dir is None
            &&& args.len() > 0 && args[0] != "--no-map"@ ==> i.dir == Some(args[0])
            &&& args.len() == 0 ==> i.dir == Some("examples/fixed"@)
            &&& args.len() > 1 ==> i.addr == args[1]
            &&& args.len() <= 1 ==> i.addr == "0.0.0.0:8080"@
        }),
{
}

/// Something is said of each zone of a list that is there, by its identifier, and
/// of nothing else.
pub proof fn lemma_which_zones_are_told(ws: &Workspace, ids: Seq<Uuid>, line: ZoneLineView)
    ensures
        zone_lines(ws, ids).contains(line) <==> exists|k: int|
            0 <= k < ids.len() && #[trigger] ids[k] == line.id && (zone_at(
                ws,
                line.id,
            ) matches Some(z) && line.name == z.name@ && line.numeric_id == value_at(
                z.properties@,
                NUMERIC_ID_PROPERTY@,
            ) && line.policy == (match value_at(z.properties@, "traffic.policy"@) {
                Some(p) => p,
                None => "-"@,
            })),
    decreases ids.len(),
{
    if ids.len() > 0 {
        let rest = ids.drop_last();
        let before = zone_lines(ws, rest);
        let after = zone_lines(ws, ids);
        lemma_which_zones_are_told(ws, rest, line);
        assert(ids[ids.len() - 1] == ids.last());
        assert forall|k: int| 0 <= k < rest.len() implies #[trigger] rest[k] == ids[k] by {}
        if before.contains(line) {
            let k = choose|k: int| 0 <= k < before.len() && before[k] == line;
            assert(after[k] == line);
        }
        if after.contains(line) {
            let k = choose|k: int| 0 <= k < after.len() && after[k] == line;
            if k < before.len() {
                assert(before[k] == line);
                assert(before.contains(line));
                let q = choose|q: int| 0 <= q < rest.len() && #[trigger] rest[q] == line.id;
                assert(ids[q] == line.id);
            }
        } else if zone_at(ws, ids.last()) is Some {
            assert(after[before.len() as int] != line);
        }
        if exists|k: int| 0 <= k < ids.len() && #[trigger] ids[k] == line.id {
            let k = choose|k: int| 0 <= k < ids.len() && #[trigger] ids[k] == line.id;
            if k < rest.len() {
                assert(rest[k] == line.id);
            }
        }
    }
}

} // verus!
