//! The `User-Agent`, by which the portal tells the slots of a computer and of a phone apart.

use vstd::prelude::*;

use crate::text;

verus! {

/// The agent of a computer.
pub const UA_PC: &'static str =
    "Mozilla/5.0 (Windows NT 10.0; Win64; x64) AppleWebKit/537.36 (KHTML, like Gecko) Chrome/120.0.0.0 Safari/537.36";

/// The phones that an agent can name.
pub const MOBILE_DEVICES: [&'static str; 6] = [
    "Pixel 7",
    "Pixel 7 Pro",
    "SM-S911B",
    "SM-S916B",
    "Pixel 8",
    "SM-A546B",
];

/// The phones that an agent can name.
pub open spec fn phones() -> Seq<Seq<char>> {
    seq!["Pixel 7"@, "Pixel 7 Pro"@, "SM-S911B"@, "SM-S916B"@, "Pixel 8"@, "SM-A546B"@]
}

/// The seed of the choice of a phone: seconds and nanoseconds of the clock, where it can be read,
/// and the number of the process.
pub open spec fn seed_of(clock: Option<(u64, u32)>, pid: u32) -> u64 {
    match clock {
        Some(t) => t.1 as u64 ^ t.0 ^ ((pid as u64) << 8u64),
        None => 12345,
    }
}

/// The phone that a seed chooses.
pub open spec fn phone_index(seed: u64) -> int {
    seed.wrapping_mul(6364136223846793005).wrapping_add(1442695040888963407) as int % 6
}

/// The agent of a phone.
pub open spec fn phone_agent(phone: Seq<char>) -> Seq<char> {
    "Mozilla/5.0 (Linux; Android 13; "@ + phone
        + ") AppleWebKit/537.36 (KHTML, like Gecko) Chrome/120.0.0.0 Mobile Safari/537.36"@
}

/// The agent of a phone that is chosen by the clock and the process.
pub fn random_mobile_ua(clock: Option<(u64, u32)>, pid: u32) -> (r: String)
    ensures
        0 <= phone_index(seed_of(clock, pid)) < 6,
        r@ == phone_agent(phones()[phone_index(seed_of(clock, pid))]),
{
    let seed: u64 = match clock {
        Some((secs, nanos)) => nanos as u64 ^ secs ^ ((pid as u64) << 8u64),
        None => 12345,
    };
    let k: usize = (seed.wrapping_mul(6364136223846793005).wrapping_add(1442695040888963407)
        % 6) as usize;
    assert(MOBILE_DEVICES@[k as int]@ == phones()[k as int]);
    text::concat3(
        "Mozilla/5.0 (Linux; Android 13; ",
        MOBILE_DEVICES[k],
        ") AppleWebKit/537.36 (KHTML, like Gecko) Chrome/120.0.0.0 Mobile Safari/537.36",
    )
}

/// The agent for a slot: that of a phone for `mobile`, and else that of a computer.
pub open spec fn agent_of(slot: Seq<char>, clock: Option<(u64, u32)>, pid: u32) -> Seq<char> {
    if slot == "mobile"@ {
        phone_agent(phones()[phone_index(seed_of(clock, pid))])
    } else {
        UA_PC@
    }
}

/// The agent for a slot.
pub fn slot_agent(slot: &str, clock: Option<(u64, u32)>, pid: u32) -> (r: String)
    ensures
        r@ == agent_of(slot@, clock, pid),
{
    if text::same(slot, "mobile") {
        random_mobile_ua(clock, pid)
    } else {
        UA_PC.to_owned()
    }
}

/// The agent names one of the six phones.
pub open spec fn names_a_phone(agent: Seq<char>) -> bool {
    ||| text::contains(agent, "; "@ + "Pixel 7"@ + ")"@)
    ||| text::contains(agent, "; "@ + "Pixel 7 Pro"@ + ")"@)
    ||| text::contains(agent, "; "@ + "SM-S911B"@ + ")"@)
    ||| text::contains(agent, "; "@ + "SM-S916B"@ + ")"@)
    ||| text::contains(agent, "; "@ + "Pixel 8"@ + ")"@)
    ||| text::contains(agent, "; "@ + "SM-A546B"@ + ")"@)
}

/// A `mobile` slot goes by one of six phones, and every other slot by the same desktop browser,
/// whatever the time and the process.
pub proof fn law_agent_of_a_slot(slot: Seq<char>, clock: Option<(u64, u32)>, pid: u32)
    ensures
        slot == "mobile"@ ==> text::contains(agent_of(slot, clock, pid), "Android"@)
            && text::contains(agent_of(slot, clock, pid), " Mobile "@),
        slot == "mobile"@ ==> names_a_phone(agent_of(slot, clock, pid)),
        slot != "mobile"@ ==> text::contains(agent_of(slot, clock, pid), "Windows NT 10.0"@)
            && agent_of(slot, clock, pid) == agent_of("pc"@, None, 0),
{
    let got = agent_of(slot, clock, pid);
    reveal_strlit("mobile");
    reveal_strlit("pc");
    assert("mobile"@.len() == 6 && "pc"@.len() == 2);
    if slot == "mobile"@ {
        let i = phone_index(seed_of(clock, pid));
        let phone = phones()[i];
        let a = "Mozilla/5.0 (Linux; Android 13; "@;
        let b = ") AppleWebKit/537.36 (KHTML, like Gecko) Chrome/120.0.0.0 Mobile Safari/537.36"@;
        reveal_strlit("Mozilla/5.0 (Linux; Android 13; ");
        reveal_strlit(
            ") AppleWebKit/537.36 (KHTML, like Gecko) Chrome/120.0.0.0 Mobile Safari/537.36",
        );
        reveal_strlit("Android");
        reveal_strlit(" Mobile ");
        reveal_strlit("; ");
        reveal_strlit(")");
        assert(got.subrange(20, 27) =~= "Android"@);
        assert(text::occurs_at(got, "Android"@, 20));
        let k = a.len() + phone.len() + 57 as int;
        assert(got.subrange(k, k + 8) =~= " Mobile "@);
        assert(text::occurs_at(got, " Mobile "@, k));
        let part = "; "@ + phone + ")"@;
        text::law_part_is_contained(a.take(30), part, b.skip(1));
        assert(got =~= a.take(30) + part + b.skip(1));
    } else {
        reveal_strlit("Windows NT 10.0");
        reveal_strlit(
            "Mozilla/5.0 (Windows NT 10.0; Win64; x64) AppleWebKit/537.36 (KHTML, like Gecko) Chrome/120.0.0.0 Safari/537.36",
        );
        assert(UA_PC@.subrange(13, 28) =~= "Windows NT 10.0"@);
        assert(text::occurs_at(got, "Windows NT 10.0"@, 13));
    }
}

/// The phone is drawn from the clock and the process by one step of a linear congruence; without a
/// clock it is always the same.
pub proof fn law_phone_is_drawn(seed: u64, pid: u32)
    ensures
        phone_index(seed) == ((seed as int * 6364136223846793005) % 0x1_0000_0000_0000_0000
            + 1442695040888963407) % 0x1_0000_0000_0000_0000 % 6,
        0 <= phone_index(seed) < 6,
        seed_of(None, pid) == 12345,
{
}

/// Every bit of the clock and of the number of the process counts: seeds differ exactly in the bits
/// in which the times, or the shifted numbers, differ.
pub proof fn law_seed_mixes_clock_and_process(
    a: (u64, u32),
    b: (u64, u32),
    p: u32,
    q: u32,
)
    ensures
        seed_of(Some(a), p) ^ seed_of(Some(b), p) == (a.0 ^ b.0) ^ (a.1 as u64 ^ b.1 as u64),
        seed_of(Some(a), p) ^ seed_of(Some(a), q) == ((p as u64) << 8u64) ^ ((q as u64) << 8u64),
        seed_of(Some((0u64, 0u32)), 0) == 0,
{
    let x = a.0;
    let y = a.1 as u64;
    let z = b.0;
    let w = b.1 as u64;
    let s = (p as u64) << 8u64;
    let t = (q as u64) << 8u64;
    assert((y ^ x ^ s) ^ (w ^ z ^ s) == (x ^ z) ^ (y ^ w)) by (bit_vector);
    assert((y ^ x ^ s) ^ (y ^ x ^ t) == s ^ t) by (bit_vector);
    assert(0u64 ^ 0u64 ^ (0u64 << 8u64) == 0) by (bit_vector);
}

}
