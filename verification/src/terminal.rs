//! Which image protocol the terminal speaks, judged from its environment.
use vstd::prelude::*;
use crate::text::{chars_of, same_text};

verus! {

/// An image protocol a terminal can speak.
#[derive(Debug, Clone, Copy, PartialEq, Eq, Structural)]
pub enum TerminalProtocol {
    /// Kitty Graphics Protocol (best performance)
    Kitty,
    /// iTerm2 Inline Images Protocol
    Iterm2,
    /// Sixel graphics
    Sixel,
    /// No image support - use ASCII fallback
    NoImages,
}

/// What the browser knows of the terminal.
#[derive(Debug)]
pub struct TerminalCapabilities {
    pub protocol: TerminalProtocol,
    /// Width and height of a cell in pixels.
    pub font_size: (u32, u32),
    pub terminal_name: String,
}

/// The environment variables the detection reads: `TERM_PROGRAM` and `TERM`
/// (empty when unset or not Unicode), and whether `TMUX` and
/// `KITTY_WINDOW_ID` are set to Unicode values.
pub struct TerminalEnv {
    pub term_program: String,
    pub term: String,
    pub tmux: bool,
    pub kitty_window_id: bool,
}

/// Whether `needle` occurs in `hay`.
pub open spec fn contains_text(hay: Seq<char>, needle: Seq<char>) -> bool {
    exists|i: int|
        0 <= i && i + needle.len() <= hay.len() && #[trigger] hay.subrange(i, i + needle.len())
            == needle
}

fn matches_at(h: &Vec<char>, n: &Vec<char>, i: usize) -> (r: bool)
    requires
        i + n@.len() <= h@.len(),
    ensures
        r == (h@.subrange(i as int, i + n@.len()) == n@),
{
    let hl = h.len();
    let mut j: usize = 0;
    while j < n.len()
        invariant
            hl == h@.len(),
            i + n@.len() <= h@.len(),
            j <= n@.len(),
            forall|m: int| 0 <= m < j ==> h@[i + m] == n@[m],
        decreases n.len() - j,
    {
        assert(i + j < h@.len());
        if h[i + j] != n[j] {
            assert(h@.subrange(i as int, i + n@.len())[j as int] != n@[j as int]);
            return false;
        }
        j += 1;
    }
    assert(h@.subrange(i as int, i + n@.len()) =~= n@);
    true
}

/// Whether `needle` occurs in `hay`.
pub fn text_contains(hay: &str, needle: &str) -> (r: bool)
    ensures
        r == contains_text(hay@, needle@),
{
    let h = chars_of(hay);
    let n = chars_of(needle);
    if n.len() > h.len() {
        return false;
    }
    let last = h.len() - n.len();
    let mut i: usize = 0;
    while i < last
        invariant
            i <= last,
            last + n@.len() == h@.len(),
            h@ == hay@,
            n@ == needle@,
            forall|k: int| 0 <= k < i ==> #[trigger] h@.subrange(k, k + n@.len()) != n@,
        decreases last - i,
    {
        if matches_at(&h, &n, i) {
            assert(h@.subrange(i as int, i + n@.len()) == n@);
            assert(contains_text(h@, n@));
            return true;
        }
        i += 1;
    }
    let r = matches_at(&h, &n, last);
    assert(r == contains_text(h@, n@)) by {
        if r {
            assert(h@.subrange(last as int, last + n@.len()) == n@);
        }
        if contains_text(h@, n@) && !r {
            let k = choose|k: int|
                0 <= k && k + n@.len() <= h@.len() && #[trigger] h@.subrange(k, k + n@.len())
                    == n@;
            assert(k < last);
        }
    }
    r
}

/// The cell size assumed for a terminal of the given name.
pub open spec fn font_size_for(name: Seq<char>) -> (u32, u32) {
    if name == "iTerm.app"@ {
        (7, 14)
    } else if name == "foot"@ {
        (9, 18)
    } else {
        (8, 16)
    }
}

/// The protocol and name judged from `TERM_PROGRAM` and `TERM` outside a
/// multiplexer, if the terminal is recognised.
pub open spec fn direct_terminal(env: TerminalEnv) -> Option<(TerminalProtocol, Seq<char>)> {
    let tp = env.term_program@;
    if tp == "ghostty"@ || tp == "kitty"@ {
        Some((TerminalProtocol::Kitty, tp))
    } else if tp == "iTerm.app"@ || tp == "WezTerm"@ || tp == "WarpTerminal"@ {
        Some((TerminalProtocol::Iterm2, tp))
    } else if tp == "Apple_Terminal"@ {
        Some((TerminalProtocol::Sixel, "Terminal.app"@))
    } else if contains_text(env.term@, "kitty"@) {
        Some((TerminalProtocol::Kitty, "kitty"@))
    } else if contains_text(env.term@, "foot"@) {
        Some((TerminalProtocol::Sixel, "foot"@))
    } else {
        None
    }
}

/// The protocol and name judged inside a multiplexer.
pub open spec fn multiplexed_terminal(env: TerminalEnv) -> (TerminalProtocol, Seq<char>) {
    let tp = env.term_program@;
    if tp == "ghostty"@ || tp == "kitty"@ {
        (TerminalProtocol::Kitty, tp)
    } else if tp == "iTerm.app"@ || tp == "WezTerm"@ {
        (TerminalProtocol::Iterm2, tp)
    } else if env.kitty_window_id {
        (TerminalProtocol::Kitty, "kitty"@)
    } else {
        (TerminalProtocol::Sixel, "tmux"@)
    }
}

/// Whether the browser runs inside `screen` or `tmux`.
pub open spec fn in_multiplexer(env: TerminalEnv) -> bool {
    contains_text(env.term@, "screen"@) || env.tmux
}

/// The detection from the environment: inside a multiplexer the outer
/// terminal's protocol with the name marked "(via multiplexer)"; outside,
/// the recognised terminal, or nothing.
pub open spec fn env_detection(env: TerminalEnv) -> Option<(TerminalProtocol, (u32, u32), Seq<char>)> {
    if in_multiplexer(env) {
        let (p, n) = multiplexed_terminal(env);
        Some((p, font_size_for(n), n + " (via multiplexer)"@))
    } else {
        match direct_terminal(env) {
            Some((p, n)) => Some((p, font_size_for(n), n)),
            None => None,
        }
    }
}

/// Outside a multiplexer (`TERM` without "screen", `TMUX` unset): Ghostty
/// and Kitty speak the Kitty protocol; iTerm2, WezTerm and Warp the iTerm2
/// protocol; Apple's Terminal Sixel under the name "Terminal.app"; any other
/// terminal is judged by `TERM`, Kitty for "kitty", Sixel for "foot", and
/// is not recognised otherwise. iTerm2 cells are 7 by 14 pixels, foot's 9
/// by 18, any other's 8 by 16.
pub proof fn law_direct_detection(env: TerminalEnv)
    requires
        !contains_text(env.term@, "screen"@),
        !env.tmux,
    ensures
        ({
            let tp = env.term_program@;
            let known = tp == "ghostty"@ || tp == "kitty"@ || tp == "iTerm.app"@ || tp
                == "WezTerm"@ || tp == "WarpTerminal"@ || tp == "Apple_Terminal"@;
            &&& (tp == "ghostty"@ || tp == "kitty"@) ==> env_detection(env) == Some(
                (TerminalProtocol::Kitty, (8u32, 16u32), tp),
            )
            &&& tp == "iTerm.app"@ ==> env_detection(env) == Some(
                (TerminalProtocol::Iterm2, (7u32, 14u32), "iTerm.app"@),
            )
            &&& (tp == "WezTerm"@ || tp == "WarpTerminal"@) ==> env_detection(env) == Some(
                (TerminalProtocol::Iterm2, (8u32, 16u32), tp),
            )
            &&& tp == "Apple_Terminal"@ ==> env_detection(env) == Some(
                (TerminalProtocol::Sixel, (8u32, 16u32), "Terminal.app"@),
            )
            &&& !known && contains_text(env.term@, "kitty"@) ==> env_detection(env) == Some(
                (TerminalProtocol::Kitty, (8u32, 16u32), "kitty"@),
            )
            &&& !known && !contains_text(env.term@, "kitty"@) && contains_text(
                env.term@,
                "foot"@,
            ) ==> env_detection(env) == Some((TerminalProtocol::Sixel, (9u32, 18u32), "foot"@))
            &&& !known && !contains_text(env.term@, "kitty"@) && !contains_text(
                env.term@,
                "foot"@,
            ) ==> env_detection(env) is None
        }),
{
    reveal_strlit("ghostty");
    reveal_strlit("kitty");
    reveal_strlit("iTerm.app");
    reveal_strlit("WezTerm");
    reveal_strlit("WarpTerminal");
    reveal_strlit("Apple_Terminal");
    reveal_strlit("foot");
    reveal_strlit("Terminal.app");
    assert("ghostty"@.len() == 7 && "kitty"@.len() == 5 && "iTerm.app"@.len() == 9);
    assert("WezTerm"@.len() == 7 && "WarpTerminal"@.len() == 12 && "Apple_Terminal"@.len() == 14);
    assert("foot"@.len() == 4 && "ghostty"@[0] == 'g' && "WezTerm"@[0] == 'W');
    assert("Terminal.app"@.len() == 12 && "Terminal.app"@[0] == 'T' && "WarpTerminal"@[0] == 'W');
}

/// Inside a multiplexer (`TERM` with "screen", or `TMUX` set) the outer
/// terminal is judged by `TERM_PROGRAM`: Ghostty and Kitty speak the Kitty
/// protocol, iTerm2 and WezTerm the iTerm2 protocol; else a set
/// `KITTY_WINDOW_ID` means Kitty, and anything else Sixel under the name
/// "tmux". The name is marked " (via multiplexer)".
pub proof fn law_multiplexed_detection(env: TerminalEnv)
    requires
        contains_text(env.term@, "screen"@) || env.tmux,
    ensures
        ({
            let tp = env.term_program@;
            let known = tp == "ghostty"@ || tp == "kitty"@ || tp == "iTerm.app"@ || tp
                == "WezTerm"@;
            &&& (tp == "ghostty"@ || tp == "kitty"@) ==> env_detection(env) == Some(
                (TerminalProtocol::Kitty, (8u32, 16u32), tp + " (via multiplexer)"@),
            )
            &&& tp == "iTerm.app"@ ==> env_detection(env) == Some(
                (TerminalProtocol::Iterm2, (7u32, 14u32), tp + " (via multiplexer)"@),
            )
            &&& tp == "WezTerm"@ ==> env_detection(env) == Some(
                (TerminalProtocol::Iterm2, (8u32, 16u32), tp + " (via multiplexer)"@),
            )
            &&& !known && env.kitty_window_id ==> env_detection(env) == Some(
                (TerminalProtocol::Kitty, (8u32, 16u32), "kitty"@ + " (via multiplexer)"@),
            )
            &&& !known && !env.kitty_window_id ==> env_detection(env) == Some(
                (TerminalProtocol::Sixel, (8u32, 16u32), "tmux"@ + " (via multiplexer)"@),
            )
        }),
{
    reveal_strlit("ghostty");
    reveal_strlit("kitty");
    reveal_strlit("iTerm.app");
    reveal_strlit("WezTerm");
    reveal_strlit("WarpTerminal");
    reveal_strlit("Apple_Terminal");
    reveal_strlit("foot");
    reveal_strlit("tmux");
    assert("ghostty"@.len() == 7 && "kitty"@.len() == 5 && "iTerm.app"@.len() == 9);
    assert("WezTerm"@.len() == 7 && "WarpTerminal"@.len() == 12 && "Apple_Terminal"@.len() == 14);
    assert("foot"@.len() == 4 && "ghostty"@[0] == 'g' && "WezTerm"@[0] == 'W');
    assert("tmux"@.len() == 4 && "tmux"@[0] == 't' && "foot"@[0] == 'f');
}

/// The fields of a detection result.
pub open spec fn capabilities_view(c: TerminalCapabilities) -> (TerminalProtocol, (u32, u32), Seq<char>) {
    (c.protocol, c.font_size, c.terminal_name@)
}

/// Detects terminal capabilities.
pub struct TerminalDetector;

impl TerminalDetector {
    /// The terminal's capabilities: from the environment when it is
    /// recognised, else no image support with 8 by 16 pixel cells under the
    /// name "unknown".
    pub fn detect(env: &TerminalEnv) -> (r: TerminalCapabilities)
        ensures
            capabilities_view(r) == match env_detection(*env) {
                Some(c) => c,
                None => (TerminalProtocol::NoImages, (8u32, 16u32), "unknown"@),
            },
    {
        if let Some(caps) = Self::detect_from_env(env) {
            return caps;
        }
        if let Some(caps) = Self::detect_via_csi() {
            return caps;
        }
        TerminalCapabilities {
            protocol: TerminalProtocol::NoImages,
            font_size: (8, 16),
            terminal_name: String::from_str("unknown"),
        }
    }

    /// The capabilities judged from the environment variables.
    pub fn detect_from_env(env: &TerminalEnv) -> (r: Option<TerminalCapabilities>)
        ensures
            match r {
                Some(c) => env_detection(*env) == Some(capabilities_view(c)),
                None => env_detection(*env) is None,
            },
    {
        let tp = env.term_program.as_str();
        let term = env.term.as_str();
        if text_contains(term, "screen") || env.tmux {
            return Some(Self::detect_multiplexer(env));
        }
        let (protocol, name) = if same_text(tp, "ghostty") || same_text(tp, "kitty") {
            (TerminalProtocol::Kitty, env.term_program.clone())
        } else if same_text(tp, "iTerm.app") || same_text(tp, "WezTerm") || same_text(
            tp,
            "WarpTerminal",
        ) {
            (TerminalProtocol::Iterm2, env.term_program.clone())
        } else if same_text(tp, "Apple_Terminal") {
            (TerminalProtocol::Sixel, String::from_str("Terminal.app"))
        } else if text_contains(term, "kitty") {
            (TerminalProtocol::Kitty, String::from_str("kitty"))
        } else if text_contains(term, "foot") {
            (TerminalProtocol::Sixel, String::from_str("foot"))
        } else {
            return None;
        };
        let font_size = Self::estimate_font_size(name.as_str());
        Some(TerminalCapabilities { protocol, font_size, terminal_name: name })
    }

    /// The capabilities inside a multiplexer, judged from the outer
    /// terminal's `TERM_PROGRAM` and `KITTY_WINDOW_ID`.
    pub fn detect_multiplexer(env: &TerminalEnv) -> (r: TerminalCapabilities)
        ensures
            ({
                let (p, n) = multiplexed_terminal(*env);
                capabilities_view(r) == (p, font_size_for(n), n + " (via multiplexer)"@)
            }),
    {
        let tp = env.term_program.as_str();
        let (protocol, name) = if same_text(tp, "ghostty") || same_text(tp, "kitty") {
            (TerminalProtocol::Kitty, env.term_program.clone())
        } else if same_text(tp, "iTerm.app") || same_text(tp, "WezTerm") {
            (TerminalProtocol::Iterm2, env.term_program.clone())
        } else if env.kitty_window_id {
            (TerminalProtocol::Kitty, String::from_str("kitty"))
        } else {
            (TerminalProtocol::Sixel, String::from_str("tmux"))
        };
        let font_size = Self::estimate_font_size(name.as_str());
        TerminalCapabilities {
            protocol,
            font_size,
            terminal_name: name.concat(" (via multiplexer)"),
        }
    }

    /// Querying the terminal with escape sequences is not attempted; there
    /// is never an answer.
    pub fn detect_via_csi() -> (r: Option<TerminalCapabilities>)
        ensures
            r is None,
    {
        None
    }

    /// The cell size assumed for a terminal: 7 by 14 pixels for iTerm2, 9
    /// by 18 for foot, 8 by 16 for any other.
    pub fn estimate_font_size(terminal: &str) -> (r: (u32, u32))
        ensures
            r == font_size_for(terminal@),
    {
        if same_text(terminal, "iTerm.app") {
            (7, 14)
        } else if same_text(terminal, "foot") {
            (9, 18)
        } else {
            (8, 16)
        }
    }
}

} // verus!
