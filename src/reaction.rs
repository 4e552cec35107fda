use vstd::prelude::*;

verus! {

/// Relies on rand's `Rng::gen_ratio` with the thread's generator: `true` with probability
/// `numerator / denominator`; never where the numerator is zero, always where it equals the
/// denominator.
#[verifier::external_body]
fn chance(numerator: u32, denominator: u32) -> (r: bool)
    requires
        0 < denominator,
        numerator <= denominator,
    ensures
        numerator == 0 ==> !r,
        numerator == denominator ==> r,
{
    rand::Rng::gen_ratio(&mut rand::thread_rng(), numerator, denominator)
}

/// The custom emoji that the bot sometimes reacts with.
pub const BONK: &'static str = "bonk:756521659938111602";

/// The emoji that the bot reacts with, more rarely.
pub const SPLASH: &'static str = "💦";

/// The reaction, if any, that the bot adds to a message: the custom emoji one time in 50;
/// otherwise the other one time in 200.
pub fn pick_reaction() -> (r: Option<&'static str>)
    ensures
        r is None || r == Some(BONK) || r == Some(SPLASH),
{
    if chance(1, 50) {
        Some(BONK)
    } else if chance(1, 200) {
        Some(SPLASH)
    } else {
        None
    }
}

} // verus!
