//! What the command line asks for.

use vstd::prelude::*;

use crate::text::chars_of;
use crate::text::ends_with;
use crate::text::has_suffix;
use crate::text::parse_u64;
use crate::text::parsed;
use crate::text::same_text;

verus! {

/// Where `name` first is among the arguments from `i` on, or past the end.
pub open spec fn place(args: Seq<String>, name: Seq<char>, i: int) -> int
    decreases args.len() - i,
{
    if i >= args.len() || args[i]@ == name {
        i
    } else {
        place(args, name, i + 1)
    }
}

/// Whether an argument is there.
pub open spec fn given(args: Seq<String>, name: Seq<char>) -> bool {
    place(args, name, 0) < args.len()
}

/// The number behind the first argument `name`, if there is one.
pub open spec fn value_of(args: Seq<String>, name: Seq<char>) -> Option<u64> {
    let at = place(args, name, 0);
    if at + 1 < args.len() {
        parsed(args[at + 1]@)
    } else {
        None
    }
}

/// The number behind the first argument `name`, or `otherwise`.
pub open spec fn value_or(args: Seq<String>, name: Seq<char>, otherwise: u64) -> u64 {
    match value_of(args, name) {
        Some(v) => v,
        None => otherwise,
    }
}

proof fn place_skips(args: Seq<String>, name: Seq<char>, i: int, j: int)
    requires
        0 <= i <= j <= args.len(),
        forall|k: int| i <= k < j ==> (#[trigger] args[k])@ != name,
    ensures
        place(args, name, i) == place(args, name, j),
    decreases j - i,
{
    if i < j {
        place_skips(args, name, i + 1, j);
    }
}

/// Where `name` first is among the arguments, or past the end.
fn find(args: &[String], name: &str) -> (r: usize)
    ensures
        r == place(args@, name@, 0),
        r <= args@.len(),
{
    let mut i: usize = 0;
    while i < args.len()
        invariant
            i <= args@.len(),
            forall|k: int| 0 <= k < i ==> (#[trigger] args@[k])@ != name@,
        decreases args@.len() - i,
    {
        if same_text(args[i].as_str(), name) {
            proof {
                place_skips(args@, name@, 0, i as int);
            }
            return i;
        }
        i = i + 1;
    }
    proof {
        place_skips(args@, name@, 0, i as int);
    }
    i
}

/// The number behind the first argument `name`, if there is one.
pub fn arg_value(args: &[String], name: &str) -> (r: Option<u64>)
    ensures
        r == value_of(args@, name@),
{
    let len: usize = args.len();
    let at: usize = find(args, name);
    if at < len && at + 1 < len {
        let text: Vec<char> = chars_of(args[at + 1].as_str());
        parse_u64(text.as_slice())
    } else {
        None
    }
}

fn value_else(args: &[String], name: &str, otherwise: u64) -> (r: u64)
    ensures
        r == value_or(args@, name@, otherwise),
{
    match arg_value(args, name) {
        Some(v) => v,
        None => otherwise,
    }
}

/// What is done with an effect.
#[derive(Clone, Copy, PartialEq, Eq, Debug)]
pub enum Mode {
    /// Render one frame, and say what it was.
    Verify { leds: u16, show_us: u64 },
    /// Render on this machine, and print it.
    Simulate { leds: u16, fps: u32, frames: u32 },
    /// Send it to a device.
    Send { priority: u8, seconds: u64 },
}

/// What the command line asks for.
#[derive(Clone, Copy, PartialEq, Eq, Debug)]
pub enum Command {
    Help,
    /// Be a node of the mesh.
    Peer { capacity: u32 },
    /// Do something with the effect that the first argument names. It is taken
    /// as it is if it is compiled already.
    Effect { compiled: bool, mode: Mode },
}

/// What is left of a number that is too large for its field.
pub open spec fn low(v: u64, reach: u64) -> u64 {
    v % reach
}

pub open spec fn command_of(args: Seq<String>) -> Command {
    if args.len() == 0 || args[0]@ == "--help"@ {
        Command::Help
    } else if given(args, "--peer"@) {
        Command::Peer {
            capacity: low(value_or(args, "--capacity"@, 2_000), 0x1_0000_0000) as u32,
        }
    } else {
        Command::Effect {
            compiled: ends_with(args[0]@, ".lfxb"@),
            mode: if given(args, "--verify"@) {
                Mode::Verify {
                    leds: low(value_or(args, "--leds"@, 30), 0x1_0000) as u16,
                    show_us: value_or(args, "--verify"@, 0),
                }
            } else if given(args, "--simulate"@) {
                Mode::Simulate {
                    leds: low(value_or(args, "--leds"@, 30), 0x1_0000) as u16,
                    fps: low(value_or(args, "--fps"@, 30), 0x1_0000_0000) as u32,
                    frames: low(value_or(args, "--frames"@, 90), 0x1_0000_0000) as u32,
                }
            } else {
                Mode::Send {
                    priority: low(value_or(args, "--priority"@, 100), 0x100) as u8,
                    seconds: value_or(args, "--seconds"@, 600),
                }
            },
        }
    }
}

/// What the command line asks for.
pub fn command(args: &[String]) -> (r: Command)
    ensures
        r == command_of(args@),
{
    let len: usize = args.len();
    if len == 0 || same_text(args[0].as_str(), "--help") {
        return Command::Help;
    }
    if find(args, "--peer") < len {
        let capacity: u64 = value_else(args, "--capacity", 2_000);
        return Command::Peer { capacity: (capacity % 0x1_0000_0000) as u32 };
    }
    let path: Vec<char> = chars_of(args[0].as_str());
    let ending: Vec<char> = chars_of(".lfxb");
    let compiled: bool = has_suffix(path.as_slice(), ending.as_slice());
    let mode: Mode = if find(args, "--verify") < len {
        let leds: u64 = value_else(args, "--leds", 30);
        Mode::Verify {
            leds: (leds % 0x1_0000) as u16,
            show_us: value_else(args, "--verify", 0),
        }
    } else if find(args, "--simulate") < len {
        let leds: u64 = value_else(args, "--leds", 30);
        let fps: u64 = value_else(args, "--fps", 30);
        let frames: u64 = value_else(args, "--frames", 90);
        Mode::Simulate {
            leds: (leds % 0x1_0000) as u16,
            fps: (fps % 0x1_0000_0000) as u32,
            frames: (frames % 0x1_0000_0000) as u32,
        }
    } else {
        let priority: u64 = value_else(args, "--priority", 100);
        Mode::Send {
            priority: (priority % 0x100) as u8,
            seconds: value_else(args, "--seconds", 600),
        }
    };
    Command::Effect { compiled, mode }
}

/// Whether an option is given is whether it is among the arguments, and its number
/// is the argument behind the first place where it is.
pub proof fn an_option_is_where_it_first_is(args: Seq<String>, name: Seq<char>, i: int)
    requires
        0 <= i <= args.len(),
        i < args.len() ==> args[i]@ == name,
        forall|j: int| 0 <= j < i ==> (#[trigger] args[j])@ != name,
    ensures
        given(args, name) <==> i < args.len(),
        i + 1 < args.len() ==> value_of(args, name) == parsed(args[i + 1]@),
        i + 1 >= args.len() ==> value_of(args, name) is None,
{
    place_skips(args, name, 0, i);
}

/// What is given is somewhere, and what is not is nowhere.
pub proof fn what_is_given_is_somewhere(args: Seq<String>, name: Seq<char>)
    ensures
        given(args, name) <==> exists|i: int| 0 <= i < args.len() && (#[trigger] args[i])@ == name,
{
    place_is_first(args, name, 0);
    if given(args, name) {
        assert(args[place(args, name, 0)]@ == name);
    } else if exists|i: int| 0 <= i < args.len() && (#[trigger] args[i])@ == name {
        let i = choose|i: int| 0 <= i < args.len() && (#[trigger] args[i])@ == name;
        assert(args[i]@ != name);
    }
}

proof fn place_is_first(args: Seq<String>, name: Seq<char>, i: int)
    requires
        0 <= i <= args.len(),
    ensures
        i <= place(args, name, i) <= args.len(),
        place(args, name, i) < args.len() ==> args[place(args, name, i)]@ == name,
        forall|j: int| i <= j < place(args, name, i) ==> (#[trigger] args[j])@ != name,
    decreases args.len() - i,
{
    if i < args.len() && args[i]@ != name {
        place_is_first(args, name, i + 1);
    }
}

/// A number that was asked for, or what stands for it if none was, as far as its
/// field holds it.
pub open spec fn is_asked(field: int, asked: Option<u64>, otherwise: int, reach: int) -> bool {
    match asked {
        Some(n) => field == n as int % reach,
        None => field == otherwise,
    }
}

/// What a command line asks for: help if it is empty or starts by asking for that,
/// else to be a node if that is among it, else to do with an effect what it says
/// first of verifying, simulating and sending; each with the numbers it gives, and
/// where it gives none with those that are usual.
pub proof fn a_command_line_means_what_it_says(args: Seq<String>)
    ensures
        ({
            let command = command_of(args);
            let help = args.len() == 0 || args[0]@ == "--help"@;
            let peer = given(args, "--peer"@);
            let verify = given(args, "--verify"@);
            let simulate = given(args, "--simulate"@);
            &&& command is Help <==> help
            &&& command is Peer <==> !help && peer
            &&& command is Effect <==> !help && !peer
            &&& command matches Command::Peer { capacity } ==> is_asked(
                capacity as int,
                value_of(args, "--capacity"@),
                2_000,
                0x1_0000_0000,
            )
            &&& command matches Command::Effect { compiled, mode } ==> {
                &&& compiled <==> ends_with(args[0]@, ".lfxb"@)
                &&& mode is Verify <==> verify
                &&& mode is Simulate <==> !verify && simulate
                &&& mode is Send <==> !verify && !simulate
                &&& mode matches Mode::Verify { leds, show_us } ==> {
                    &&& is_asked(leds as int, value_of(args, "--leds"@), 30, 0x1_0000)
                    &&& is_asked(
                        show_us as int,
                        value_of(args, "--verify"@),
                        0,
                        0x1_0000_0000_0000_0000,
                    )
                }
                &&& mode matches Mode::Simulate { leds, fps, frames } ==> {
                    &&& is_asked(leds as int, value_of(args, "--leds"@), 30, 0x1_0000)
                    &&& is_asked(fps as int, value_of(args, "--fps"@), 30, 0x1_0000_0000)
                    &&& is_asked(frames as int, value_of(args, "--frames"@), 90, 0x1_0000_0000)
                }
                &&& mode matches Mode::Send { priority, seconds } ==> {
                    &&& is_asked(priority as int, value_of(args, "--priority"@), 100, 0x100)
                    &&& is_asked(
                        seconds as int,
                        value_of(args, "--seconds"@),
                        600,
                        0x1_0000_0000_0000_0000,
                    )
                }
            }
        }),
{
}

} // verus!
