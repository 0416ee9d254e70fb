//! Command-line configuration data: which agent steers the game and the
//! run's numeric settings. Reading the actual command line is the embedding
//! program's work; the library holds the plain values and the flag-name
//! mapping.

use vstd::prelude::*;

verus! {

/// Character-for-character equality of two strings.
fn str_eq(a: &str, b: &str) -> (r: bool)
    ensures
        r == (a@ == b@),
{
    let la = a.unicode_len();
    let lb = b.unicode_len();
    if la != lb {
        proof {
            assert(a@ != b@);
        }
        return false;
    }
    let mut i: usize = 0;
    while i < la
        invariant
            la == a@.len(),
            la == b@.len(),
            i <= la,
            forall|k: int| 0 <= k < i ==> a@[k] == b@[k],
        decreases la - i,
    {
        if a.get_char(i) != b.get_char(i) {
            return false;
        }
        i += 1;
    }
    proof {
        assert(a@ =~= b@);
    }
    true
}

/// Which agent steers the game.
#[derive(Clone, Copy, Debug, PartialEq, Eq, Structural)]
pub enum ControllerParam {
    Player,
    Random,
    Simulated,
}

impl ControllerParam {
    /// The flag value naming this controller.
    pub fn name(&self) -> (r: &'static str)
        ensures
            r@ == match self {
                ControllerParam::Player => "player"@,
                ControllerParam::Random => "random"@,
                ControllerParam::Simulated => "simulated"@,
            },
    {
        match self {
            ControllerParam::Player => "player",
            ControllerParam::Random => "random",
            ControllerParam::Simulated => "simulated",
        }
    }
}

impl core::str::FromStr for ControllerParam {
    type Err = String;

    /// Parse a flag value: exactly the three controller names are accepted.
    fn from_str(s: &str) -> Result<Self, String> {
        if str_eq(s, "player") {
            Ok(ControllerParam::Player)
        } else if str_eq(s, "random") {
            Ok(ControllerParam::Random)
        } else if str_eq(s, "simulated") {
            Ok(ControllerParam::Simulated)
        } else {
            let mut msg = "failed to parse '".to_owned();
            msg.append(s);
            msg.append("' into a 'ControllerParam'");
            Err(msg)
        }
    }
}

/// A whole run's configuration, as plain values.
pub struct Arguments {
    /// Size of the grid on which the game is played.
    pub size: usize,
    /// Number of tiles that spawn on the grid each turn.
    pub spawn: usize,
    /// Disable clearing the terminal to refresh the screen.
    pub no_clear: bool,
    /// How many turns' frames to skip between displays.
    pub display_skips: usize,
    /// Delay in milliseconds added between turns.
    pub delay: u64,
    /// The controller to use for the game.
    pub controller: ControllerParam,
    /// Seed for the colour pattern; zero asks for a random seed.
    pub color_seed: u16,
}

impl Default for Arguments {
    fn default() -> (r: Self)
        ensures
            r.size == 4,
            r.spawn == 1,
            r.no_clear == false,
            r.display_skips == 0,
            r.delay == 0,
            r.controller == ControllerParam::Player,
            r.color_seed == 35,
    {
        Self {
            size: 4,
            spawn: 1,
            no_clear: false,
            display_skips: 0,
            delay: 0,
            controller: ControllerParam::Player,
            color_seed: 35,
        }
    }
}

} // verus!
