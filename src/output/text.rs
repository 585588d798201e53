//! Settings of the human-readable renderer, and its ANSI emphasis.

use vstd::prelude::*;
use crate::text::string_of;
use crate::{push_text, same_text};

verus! {

/// The ANSI escape that starts bold text in the named color; white for a
/// missing or unknown name.
pub open spec fn color_code(color: Option<Seq<char>>) -> Seq<char> {
    let c = match color {
        Some(c) => c,
        None => "white"@,
    };
    if c == "red"@ {
        "\x1b[31;1m"@
    } else if c == "green"@ {
        "\x1b[32;1m"@
    } else if c == "yellow"@ {
        "\x1b[33;1m"@
    } else if c == "blue"@ {
        "\x1b[34;1m"@
    } else if c == "magenta"@ {
        "\x1b[35;1m"@
    } else if c == "cyan"@ {
        "\x1b[36;1m"@
    } else {
        "\x1b[37;1m"@
    }
}

pub open spec fn opt_view(o: Option<&str>) -> Option<Seq<char>> {
    match o {
        Some(s) => Some(s@),
        None => None,
    }
}

fn code_for(color: Option<&str>) -> (r: &'static str)
    ensures
        r@ == color_code(opt_view(color)),
{
    let c = match color {
        Some(c) => c,
        None => "white",
    };
    if same_text(c, "red") {
        "\x1b[31;1m"
    } else if same_text(c, "green") {
        "\x1b[32;1m"
    } else if same_text(c, "yellow") {
        "\x1b[33;1m"
    } else if same_text(c, "blue") {
        "\x1b[34;1m"
    } else if same_text(c, "magenta") {
        "\x1b[35;1m"
    } else if same_text(c, "cyan") {
        "\x1b[36;1m"
    } else {
        "\x1b[37;1m"
    }
}

/// `s` in bold in the named color, when color is enabled; `s` unchanged otherwise.
pub fn bold(s: &str, color: Option<&str>, enable_color: bool) -> (r: String)
    ensures
        !enable_color ==> r@ == s@,
        enable_color ==> r@ == color_code(opt_view(color)) + s@ + "\x1b[0m"@,
{
    if !enable_color {
        return String::from_str(s);
    }
    let mut out: Vec<char> = Vec::new();
    push_text(&mut out, code_for(color));
    push_text(&mut out, s);
    push_text(&mut out, "\x1b[0m");
    string_of(out.as_slice())
}

/// Settings of the text renderer.
#[derive(Clone, Copy, Debug)]
pub struct TextFormatter {
    pub enable_color: bool,
}

impl TextFormatter {
    /// A renderer without color.
    pub fn new() -> (r: TextFormatter)
        ensures
            !r.enable_color,
    {
        TextFormatter { enable_color: false }
    }

    pub fn with_color(self, enable: bool) -> (r: TextFormatter)
        ensures
            r.enable_color == enable,
    {
        TextFormatter { enable_color: enable }
    }

    pub fn is_color_enabled(&self) -> (r: bool)
        ensures
            r == self.enable_color,
    {
        self.enable_color
    }
}

impl Default for TextFormatter {
    fn default() -> (r: TextFormatter)
        ensures
            !r.enable_color,
    {
        TextFormatter::new()
    }
}

} // verus!
