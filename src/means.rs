//! The closed vocabulary of causes of death that the server writes at the
//! end of a kill line.
use vstd::prelude::*;

use crate::error::LogError;
use crate::text::{chars_of, equal_chars};

verus! {

/// A cause of death, as the server names it.
#[derive(Clone, Copy, Debug, PartialEq, Eq, Hash, Structural)]
pub enum MeansOfDeath {
    ModUnknown,
    ModShotgun,
    ModGauntlet,
    ModMachinegun,
    ModGrenade,
    ModGrenadeSplash,
    ModRocket,
    ModRocketSplash,
    ModPlasma,
    ModPlasmaSplash,
    ModRailgun,
    ModLightning,
    ModBfg,
    ModBfgSplash,
    ModWater,
    ModSlime,
    ModLava,
    ModCrush,
    ModTelefrag,
    ModFalling,
    ModSuicide,
    ModTargetLaser,
    ModTriggerHurt,
    ModNail,
    ModChaingun,
    ModProximityMine,
    ModKamikaze,
    ModJuiced,
    ModGrapple,
}

/// The cause that the token `t` names, if it names one. Tokens match exactly:
/// case counts and no whitespace is taken off.
pub open spec fn cause_of(t: Seq<char>) -> Option<MeansOfDeath> {
    if t == "MOD_UNKNOWN"@ {
        Some(MeansOfDeath::ModUnknown)
    } else if t == "MOD_SHOTGUN"@ {
        Some(MeansOfDeath::ModShotgun)
    } else if t == "MOD_GAUNTLET"@ {
        Some(MeansOfDeath::ModGauntlet)
    } else if t == "MOD_MACHINEGUN"@ {
        Some(MeansOfDeath::ModMachinegun)
    } else if t == "MOD_GRENADE"@ {
        Some(MeansOfDeath::ModGrenade)
    } else if t == "MOD_GRENADE_SPLASH"@ {
        Some(MeansOfDeath::ModGrenadeSplash)
    } else if t == "MOD_ROCKET"@ {
        Some(MeansOfDeath::ModRocket)
    } else if t == "MOD_ROCKET_SPLASH"@ {
        Some(MeansOfDeath::ModRocketSplash)
    } else if t == "MOD_PLASMA"@ {
        Some(MeansOfDeath::ModPlasma)
    } else if t == "MOD_PLASMA_SPLASH"@ {
        Some(MeansOfDeath::ModPlasmaSplash)
    } else if t == "MOD_RAILGUN"@ {
        Some(MeansOfDeath::ModRailgun)
    } else if t == "MOD_LIGHTNING"@ {
        Some(MeansOfDeath::ModLightning)
    } else if t == "MOD_BFG"@ {
        Some(MeansOfDeath::ModBfg)
    } else if t == "MOD_BFG_SPLASH"@ {
        Some(MeansOfDeath::ModBfgSplash)
    } else if t == "MOD_WATER"@ {
        Some(MeansOfDeath::ModWater)
    } else if t == "MOD_SLIME"@ {
        Some(MeansOfDeath::ModSlime)
    } else if t == "MOD_LAVA"@ {
        Some(MeansOfDeath::ModLava)
    } else if t == "MOD_CRUSH"@ {
        Some(MeansOfDeath::ModCrush)
    } else if t == "MOD_TELEFRAG"@ {
        Some(MeansOfDeath::ModTelefrag)
    } else if t == "MOD_FALLING"@ {
        Some(MeansOfDeath::ModFalling)
    } else if t == "MOD_SUICIDE"@ {
        Some(MeansOfDeath::ModSuicide)
    } else if t == "MOD_TARGET_LASER"@ {
        Some(MeansOfDeath::ModTargetLaser)
    } else if t == "MOD_TRIGGER_HURT"@ {
        Some(MeansOfDeath::ModTriggerHurt)
    } else if t == "MOD_NAIL"@ {
        Some(MeansOfDeath::ModNail)
    } else if t == "MOD_CHAINGUN"@ {
        Some(MeansOfDeath::ModChaingun)
    } else if t == "MOD_PROXIMITY_MINE"@ {
        Some(MeansOfDeath::ModProximityMine)
    } else if t == "MOD_KAMIKAZE"@ {
        Some(MeansOfDeath::ModKamikaze)
    } else if t == "MOD_JUICED"@ {
        Some(MeansOfDeath::ModJuiced)
    } else if t == "MOD_GRAPPLE"@ {
        Some(MeansOfDeath::ModGrapple)
    } else {
        None
    }
}

impl MeansOfDeath {
    /// The cause that `token` names; an `UnrecognizedCause` error that
    /// carries the token where it names none.
    pub fn from_token(token: &str) -> (r: Result<MeansOfDeath, LogError>)
        ensures
            match cause_of(token@) {
                Some(m) => r == Ok::<MeansOfDeath, LogError>(m),
                None => r is Err && r->Err_0@ == crate::error::Fault::UnrecognizedCause(token@),
            },
    {
        let t = chars_of(token);
        if equal_chars(&t, "MOD_UNKNOWN") {
            Ok(MeansOfDeath::ModUnknown)
        } else if equal_chars(&t, "MOD_SHOTGUN") {
            Ok(MeansOfDeath::ModShotgun)
        } else if equal_chars(&t, "MOD_GAUNTLET") {
            Ok(MeansOfDeath::ModGauntlet)
        } else if equal_chars(&t, "MOD_MACHINEGUN") {
            Ok(MeansOfDeath::ModMachinegun)
        } else if equal_chars(&t, "MOD_GRENADE") {
            Ok(MeansOfDeath::ModGrenade)
        } else if equal_chars(&t, "MOD_GRENADE_SPLASH") {
            Ok(MeansOfDeath::ModGrenadeSplash)
        } else if equal_chars(&t, "MOD_ROCKET") {
            Ok(MeansOfDeath::ModRocket)
        } else if equal_chars(&t, "MOD_ROCKET_SPLASH") {
            Ok(MeansOfDeath::ModRocketSplash)
        } else if equal_chars(&t, "MOD_PLASMA") {
            Ok(MeansOfDeath::ModPlasma)
        } else if equal_chars(&t, "MOD_PLASMA_SPLASH") {
            Ok(MeansOfDeath::ModPlasmaSplash)
        } else if equal_chars(&t, "MOD_RAILGUN") {
            Ok(MeansOfDeath::ModRailgun)
        } else if equal_chars(&t, "MOD_LIGHTNING") {
            Ok(MeansOfDeath::ModLightning)
        } else if equal_chars(&t, "MOD_BFG") {
            Ok(MeansOfDeath::ModBfg)
        } else if equal_chars(&t, "MOD_BFG_SPLASH") {
            Ok(MeansOfDeath::ModBfgSplash)
        } else if equal_chars(&t, "MOD_WATER") {
            Ok(MeansOfDeath::ModWater)
        } else if equal_chars(&t, "MOD_SLIME") {
            Ok(MeansOfDeath::ModSlime)
        } else if equal_chars(&t, "MOD_LAVA") {
            Ok(MeansOfDeath::ModLava)
        } else if equal_chars(&t, "MOD_CRUSH") {
            Ok(MeansOfDeath::ModCrush)
        } else if equal_chars(&t, "MOD_TELEFRAG") {
            Ok(MeansOfDeath::ModTelefrag)
        } else if equal_chars(&t, "MOD_FALLING") {
            Ok(MeansOfDeath::ModFalling)
        } else if equal_chars(&t, "MOD_SUICIDE") {
            Ok(MeansOfDeath::ModSuicide)
        } else if equal_chars(&t, "MOD_TARGET_LASER") {
            Ok(MeansOfDeath::ModTargetLaser)
        } else if equal_chars(&t, "MOD_TRIGGER_HURT") {
            Ok(MeansOfDeath::ModTriggerHurt)
        } else if equal_chars(&t, "MOD_NAIL") {
            Ok(MeansOfDeath::ModNail)
        } else if equal_chars(&t, "MOD_CHAINGUN") {
            Ok(MeansOfDeath::ModChaingun)
        } else if equal_chars(&t, "MOD_PROXIMITY_MINE") {
            Ok(MeansOfDeath::ModProximityMine)
        } else if equal_chars(&t, "MOD_KAMIKAZE") {
            Ok(MeansOfDeath::ModKamikaze)
        } else if equal_chars(&t, "MOD_JUICED") {
            Ok(MeansOfDeath::ModJuiced)
        } else if equal_chars(&t, "MOD_GRAPPLE") {
            Ok(MeansOfDeath::ModGrapple)
        } else {
            Err(LogError::UnrecognizedCause(token.to_owned()))
        }
    }
}

} // verus!
