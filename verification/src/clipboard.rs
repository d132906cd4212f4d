//! Which clipboard helper tools to try, and in what order, for the detected
//! display server.
//!
//! Probing the environment and spawning the tools happen outside the
//! library; the order in which they are tried is this decision.

use vstd::prelude::*;

use crate::text::views_of;

verus! {

/// The display server a Linux session runs under.
#[derive(Clone, Copy, Debug, PartialEq, Eq, Structural)]
pub enum DisplayServer {
    Wayland,
    X11,
    Unknown,
}

/// The tool order per display server: its own native tool first, the others
/// as fallbacks.
pub open spec fn tool_order_of(server: DisplayServer) -> Seq<Seq<char>> {
    match server {
        DisplayServer::Wayland => seq!["wl-copy"@, "xclip"@, "xsel"@],
        DisplayServer::X11 => seq!["xclip"@, "xsel"@, "wl-copy"@],
        DisplayServer::Unknown => seq!["wl-copy"@, "xclip"@, "xsel"@],
    }
}

/// The fixed arguments each clipboard tool takes.
pub open spec fn tool_args_of(tool: Seq<char>) -> Seq<Seq<char>> {
    if tool == "xclip"@ {
        seq!["-selection"@, "clipboard"@]
    } else if tool == "xsel"@ {
        seq!["--clipboard"@, "--input"@]
    } else {
        Seq::empty()
    }
}

/// The clipboard tools to try for this display server, in order, each with
/// its fixed arguments.
pub fn clipboard_tools(server: &DisplayServer) -> (r: Vec<(String, Vec<String>)>)
    ensures
        r@.len() == 3,
        forall|k: int|
            0 <= k < 3 ==> (#[trigger] r@[k]).0@ == tool_order_of(*server)[k] && views_of(
                r@[k].1@,
            ) == tool_args_of(tool_order_of(*server)[k]),
{
    let wl: (String, Vec<String>) = (String::from_str("wl-copy"), Vec::new());
    let mut xclip_args: Vec<String> = Vec::new();
    xclip_args.push(String::from_str("-selection"));
    xclip_args.push(String::from_str("clipboard"));
    let xclip: (String, Vec<String>) = (String::from_str("xclip"), xclip_args);
    let mut xsel_args: Vec<String> = Vec::new();
    xsel_args.push(String::from_str("--clipboard"));
    xsel_args.push(String::from_str("--input"));
    let xsel: (String, Vec<String>) = (String::from_str("xsel"), xsel_args);
    let mut r: Vec<(String, Vec<String>)> = Vec::new();
    match server {
        DisplayServer::X11 => {
            r.push(xclip);
            r.push(xsel);
            r.push(wl);
        },
        DisplayServer::Wayland => {
            r.push(wl);
            r.push(xclip);
            r.push(xsel);
        },
        DisplayServer::Unknown => {
            r.push(wl);
            r.push(xclip);
            r.push(xsel);
        },
    }
    proof {
        reveal_strlit("wl-copy");
        reveal_strlit("xclip");
        reveal_strlit("xsel");
        assert("wl-copy"@.len() == 7);
        assert("xclip"@.len() == 5);
        assert("xsel"@.len() == 4);
        assert(views_of(r@[0].1@) =~~= tool_args_of(tool_order_of(*server)[0]));
        assert(views_of(r@[1].1@) =~~= tool_args_of(tool_order_of(*server)[1]));
        assert(views_of(r@[2].1@) =~~= tool_args_of(tool_order_of(*server)[2]));
    }
    r
}

} // verus!
