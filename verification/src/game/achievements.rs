use vstd::prelude::*;

verus! {

broadcast use vstd::std_specs::hash::group_hash_axioms;

/// Ids of the campaign levels that achievements are tied to.
pub const BASIC_ROUTING: u128 = 0x58fc60ca_3831_4f27_a29a_b4878a5dd68a;
pub const NOT_GATE: u128 = 0xcafeb123_66dc_4b04_b560_5cf80868cae4;
pub const XOR_GATE: u128 = 0x3eb940dd_1f76_46c5_8aea_800ae0951364;
pub const BASIC_OSCILLATOR: u128 = 0xaa28086a_564e_46d3_9233_894c157d92fe;
pub const RS_LATCH: u128 = 0xf4444a1c_d2a8_4a7a_b311_ec39322c1776;
pub const SERIAL_BUS: u128 = 0x151094cc_afcf_4825_87e2_72a565c18162;
pub const MULTIPLIER: u128 = 0x898fede9_9bb5_455e_9671_4671d2bbdae3;
pub const ADDER_SUBTRACTOR: u128 = 0x597b1d3d_0441_460f_870d_ed77749a07d7;
pub const TRIPLE_IT: u128 = 0xc04be8ac_0a2e_44c8_b82b_4f1ef2566244;

/// One hour, in seconds.
pub const HOUR: u64 = 3600;

/// Whether `id` is one of the three arithmetic levels.
pub open spec fn is_arithmetic_level(id: u128) -> bool {
    id == MULTIPLIER || id == ADDER_SUBTRACTOR || id == TRIPLE_IT
}

/// The achievements earned by solving level `id` at the given cost and
/// latency, where `solved` holds the levels solved so far, in the order they
/// are awarded.
pub open spec fn campaign_awards(id: u128, solved: Set<u128>, cost: u32, latency: u32) -> Seq<
    Seq<char>,
> {
    let arithmetic: Seq<Seq<char>> = if is_arithmetic_level(id) && solved.contains(MULTIPLIER)
        && solved.contains(ADDER_SUBTRACTOR) && solved.contains(TRIPLE_IT) {
        seq!["binary_arithmetic"@]
    } else {
        Seq::empty()
    };
    let level: Seq<Seq<char>> = if id == BASIC_ROUTING {
        seq!["its_beam_time"@]
    } else if id == NOT_GATE {
        seq!["turing_complete"@]
    } else if id == XOR_GATE && cost <= 2000 {
        seq!["cheapest_xor"@]
    } else if id == BASIC_OSCILLATOR && latency <= 2 {
        seq!["low_latency_oscillator"@]
    } else if id == RS_LATCH && cost <= 1500 {
        seq!["compact_memory_cell"@]
    } else if id == SERIAL_BUS && cost <= 64000 {
        seq!["cheep_serial_bus"@]
    } else {
        Seq::empty()
    };
    arithmetic + level
}

/// The achievements earned by `playtime` seconds spent in the sandbox.
pub open spec fn playtime_awards(playtime: u64) -> Seq<Seq<char>> {
    let hour: Seq<Seq<char>> = if playtime >= HOUR {
        seq!["sandbox_1hr"@]
    } else {
        Seq::empty()
    };
    let day: Seq<Seq<char>> = if playtime >= 24 * HOUR {
        seq!["sandbox_24hr"@]
    } else {
        Seq::empty()
    };
    hour + day
}

/// The names of `v`, as character sequences.
pub open spec fn names(v: Seq<&'static str>) -> Seq<Seq<char>> {
    v.map_values(|s: &'static str| s@)
}

/// The achievements to award for solving campaign level `id` with a
/// solution of the given cost and latency; `solved` holds the levels solved
/// so far.
pub fn award_campaign_achievements(
    id: u128,
    solved: &std::collections::HashSet<u128>,
    cost_latency: (u32, u32),
) -> (r: Vec<&'static str>)
    ensures
        names(r@) == campaign_awards(id, solved@, cost_latency.0, cost_latency.1),
{
    let (cost, latency) = cost_latency;
    let mut out: Vec<&'static str> = Vec::new();
    if (id == MULTIPLIER || id == ADDER_SUBTRACTOR || id == TRIPLE_IT) && solved.contains(
        &MULTIPLIER,
    ) && solved.contains(&ADDER_SUBTRACTOR) && solved.contains(&TRIPLE_IT) {
        out.push("binary_arithmetic");
    }
    if id == BASIC_ROUTING {
        out.push("its_beam_time");
    } else if id == NOT_GATE {
        out.push("turing_complete");
    } else if id == XOR_GATE && cost <= 2000 {
        out.push("cheapest_xor");
    } else if id == BASIC_OSCILLATOR && latency <= 2 {
        out.push("low_latency_oscillator");
    } else if id == RS_LATCH && cost <= 1500 {
        out.push("compact_memory_cell");
    } else if id == SERIAL_BUS && cost <= 64000 {
        out.push("cheep_serial_bus");
    }
    proof {
        assert(names(out@) =~= campaign_awards(id, solved@, cost, latency));
    }
    out
}

/// The achievements to award for `playtime` seconds spent in the sandbox.
pub fn award_sandbox_playtime_achievements(playtime: u64) -> (r: Vec<&'static str>)
    ensures
        names(r@) == playtime_awards(playtime),
{
    let mut out: Vec<&'static str> = Vec::new();
    if playtime >= HOUR {
        out.push("sandbox_1hr");
    }
    if playtime >= 24 * HOUR {
        out.push("sandbox_24hr");
    }
    proof {
        assert(names(out@) =~= playtime_awards(playtime));
    }
    out
}

} // verus!
