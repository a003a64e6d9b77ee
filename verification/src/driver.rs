//! The host program handed to the external interpreter each tick: a short
//! script that loads the uploaded bot module, calls its decision function
//! with the current tick and position, and prints the returned action.

use vstd::prelude::*;
use vstd::string::StringExecFns;

use crate::action::format_action_spec;
use crate::action::format_position;
use crate::engine::GameState;
use crate::text::dec_chars;
use crate::text::fmt_u64;

verus! {

/// The exact text of the host program for one invocation: the script path
/// spliced into the module loader, then the request as a literal
/// dictionary with the tick number and the `(x, y)` position.
pub open spec fn driver_program_spec(path: Seq<char>, tick: nat, x: int, y: int) -> Seq<char> {
    "\nimport importlib.util\n\nspec = importlib.util.spec_from_file_location(\"bot\", \""@ + path
        + "\")\nbot = importlib.util.module_from_spec(spec)\nspec.loader.exec_module(bot)\n\naction = bot.play({\"tick\": "@
        + dec_chars(tick) + ", \"player_position\": "@ + format_action_spec(x, y)
        + "})\nprint(action)\n"@
}

/// Builds the host program text for one invocation, character for
/// character as [`driver_program_spec`] states it.
pub fn build_driver_program(script_path: &str, tick: u32, x: i64, y: i64) -> (r: String)
    ensures
        r@ == driver_program_spec(script_path@, tick as nat, x as int, y as int),
{
    let mut r = String::from_str(
        "\nimport importlib.util\n\nspec = importlib.util.spec_from_file_location(\"bot\", \"",
    );
    r.append(script_path);
    r.append(
        "\")\nbot = importlib.util.module_from_spec(spec)\nspec.loader.exec_module(bot)\n\naction = bot.play({\"tick\": ",
    );
    let tick_text = fmt_u64(tick as u64);
    r.append(tick_text.as_str());
    r.append(", \"player_position\": ");
    let position_text = format_position(x, y);
    r.append(position_text.as_str());
    r.append("})\nprint(action)\n");
    proof {
        assert(r@ =~= driver_program_spec(script_path@, tick as nat, x as int, y as int));
    }
    r
}

/// The request for the coming tick: the engine numbers it
/// `state.tick + 1` and reports the position accumulated so far.
pub fn build_tick_request(script_path: &str, state: &GameState) -> (r: String)
    requires
        state.tick < u32::MAX,
    ensures
        r@ == driver_program_spec(
            script_path@,
            state.tick as nat + 1,
            state.player_position.0 as int,
            state.player_position.1 as int,
        ),
{
    build_driver_program(
        script_path,
        state.tick + 1,
        state.player_position.0,
        state.player_position.1,
    )
}

} // verus!
