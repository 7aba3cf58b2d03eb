//! The workspaces module: label formatting and colors.
use vstd::prelude::*;

use crate::text::{chars_of, join, lemma_join_contains, occurs_in, push_char, push_chars, push_str, slice_chars, string_of};

verus! {

/// Filter controlling which workspaces are shown when the compositor reports monitors.
#[derive(Debug, Clone, Copy, PartialEq, Eq, Structural)]
pub enum VisibilityMode {
    /// Show all workspaces across every monitor.
    AllMonitors,
    /// Show only workspaces on the same monitor as the currently active workspace.
    MonitorSpecific,
}

impl VisibilityMode {
    /// `monitor_specific` selects [`VisibilityMode::MonitorSpecific`]; anything else
    /// [`VisibilityMode::AllMonitors`].
    pub fn parse(s: &str) -> (r: VisibilityMode)
        ensures
            r == (if s@ == "monitor_specific"@ {
                VisibilityMode::MonitorSpecific
            } else {
                VisibilityMode::AllMonitors
            }),
    {
        if crate::text::eq_str(s, "monitor_specific") {
            VisibilityMode::MonitorSpecific
        } else {
            VisibilityMode::AllMonitors
        }
    }
}

impl Default for VisibilityMode {
    fn default() -> (r: VisibilityMode)
        ensures
            r == VisibilityMode::AllMonitors,
    {
        VisibilityMode::AllMonitors
    }
}

/// Runtime configuration for the workspaces module.
#[derive(Debug, Clone)]
pub struct WorkspacesConfig {
    pub visibility_mode: VisibilityMode,
    /// Pango-compatible foreground color (`#rrggbb`) for the active workspace.
    pub active_color: Option<String>,
    /// Pango-compatible foreground color (`#rrggbb`) for inactive workspaces.
    pub inactive_color: Option<String>,
}

impl Default for WorkspacesConfig {
    fn default() -> (r: WorkspacesConfig)
        ensures
            r.visibility_mode == VisibilityMode::AllMonitors,
            r.active_color is None,
            r.inactive_color is None,
    {
        WorkspacesConfig {
            visibility_mode: VisibilityMode::AllMonitors,
            active_color: None,
            inactive_color: None,
        }
    }
}

/// Minimal workspace descriptor used for label formatting.
#[derive(Debug, Clone, PartialEq, Eq)]
pub struct WorkspaceInfo {
    pub id: i32,
    pub name: String,
}

/// Current workspace display state shared between the background task and the click handler.
#[derive(Debug, Clone, Default)]
pub struct WorkspacesDisplayState {
    pub workspaces: Vec<WorkspaceInfo>,
    pub active_id: i32,
}

/// The XML/Pango escape of one character.
pub open spec fn escape_char(c: char) -> Seq<char> {
    if c == '&' {
        "&amp;"@
    } else if c == '<' {
        "&lt;"@
    } else if c == '>' {
        "&gt;"@
    } else if c == '"' {
        "&quot;"@
    } else if c == '\'' {
        "&apos;"@
    } else {
        seq![c]
    }
}

/// `s` with `&`, `<`, `>`, `"` and `'` replaced by their XML entities.
pub open spec fn pango_escaped(s: Seq<char>) -> Seq<char>
    decreases s.len(),
{
    if s.len() == 0 {
        Seq::empty()
    } else {
        pango_escaped(s.drop_last()) + escape_char(s.last())
    }
}

/// Escape special XML/Pango characters in a workspace name.
pub fn pango_escape(s: &str) -> (r: String)
    ensures
        r@ == pango_escaped(s@),
{
    let v = chars_of(s);
    let mut r = String::new();
    for i in 0..v.len()
        invariant
            v@ == s@,
            r@ == pango_escaped(v@.take(i as int)),
    {
        let c = v[i];
        assert(v@.take(i + 1).drop_last() =~= v@.take(i as int));
        assert(v@.take(i + 1).last() == c);
        if c == '&' {
            push_str(&mut r, "&amp;");
        } else if c == '<' {
            push_str(&mut r, "&lt;");
        } else if c == '>' {
            push_str(&mut r, "&gt;");
        } else if c == '"' {
            push_str(&mut r, "&quot;");
        } else if c == '\'' {
            push_str(&mut r, "&apos;");
        } else {
            push_char(&mut r, c);
            assert(r@ =~= pango_escaped(v@.take(i as int)) + seq![c]);
        }
    }
    assert(v@.take(v.len() as int) =~= v@);
    r
}

/// The characters that escaping removes from text.
pub open spec fn is_markup_special(c: char) -> bool {
    c == '<' || c == '>' || c == '"' || c == '\''
}

/// Escaped text holds none of `<`, `>`, `"`, `'`.
pub proof fn lemma_escaped_has_no_specials(s: Seq<char>)
    ensures
        forall|i: int| 0 <= i < pango_escaped(s).len() ==> !is_markup_special(#[trigger] pango_escaped(s)[i]),
    decreases s.len(),
{
    reveal_strlit("&amp;");
    reveal_strlit("&lt;");
    reveal_strlit("&gt;");
    reveal_strlit("&quot;");
    reveal_strlit("&apos;");
    if s.len() > 0 {
        lemma_escaped_has_no_specials(s.drop_last());
        let p = pango_escaped(s.drop_last());
        let e = escape_char(s.last());
        assert forall|i: int| 0 <= i < pango_escaped(s).len() implies !is_markup_special(
            #[trigger] pango_escaped(s)[i],
        ) by {
            if i >= p.len() {
                assert(pango_escaped(s)[i] == e[i - p.len()]);
            } else {
                assert(pango_escaped(s)[i] == p[i]);
            }
        }
    }
}

/// The configured color text, or empty.
pub open spec fn color_or_empty(c: Option<String>) -> Seq<char> {
    match c {
        Some(s) => s@,
        None => Seq::empty(),
    }
}

/// The markup for one workspace when colors are configured.
pub open spec fn colored_part(ws: WorkspaceInfo, active_id: i32, config: WorkspacesConfig) -> Seq<char> {
    let color = if ws.id == active_id {
        color_or_empty(config.active_color)
    } else {
        color_or_empty(config.inactive_color)
    };
    let name = pango_escaped(ws.name@);
    if color.len() == 0 {
        name
    } else {
        "<span foreground=\""@ + color + "\">"@ + name + "</span>"@
    }
}

/// The plain text for one workspace: the active one in brackets.
pub open spec fn plain_part(ws: WorkspaceInfo, active_id: i32) -> Seq<char> {
    if ws.id == active_id {
        seq!['['] + ws.name@ + seq![']']
    } else {
        ws.name@
    }
}

/// The workspaces label and whether it is markup.
pub open spec fn workspaces_label(ws: Seq<WorkspaceInfo>, active_id: i32, config: WorkspacesConfig) -> (Seq<char>, bool) {
    if ws.len() == 0 {
        (Seq::empty(), false)
    } else if config.active_color is Some || config.inactive_color is Some {
        (join(ws.map_values(|w: WorkspaceInfo| colored_part(w, active_id, config)), "  "@), true)
    } else {
        (join(ws.map_values(|w: WorkspaceInfo| plain_part(w, active_id)), "  "@), false)
    }
}

/// The workspaces label is markup exactly when the list is not empty and a color is
/// configured for the active or for the inactive workspaces (either one is enough).
pub proof fn lemma_workspaces_label_markup(ws: Seq<WorkspaceInfo>, active_id: i32, config: WorkspacesConfig)
    ensures
        workspaces_label(ws, active_id, config).1 == (ws.len() > 0 && (config.active_color is Some
            || config.inactive_color is Some)),
{
}

/// Adding a workspace at the end of a nonempty list adds two spaces and that workspace's
/// part to the label: its name (in brackets when it is active) without colors; with
/// colors, its escaped name, in a `<span foreground="color">` when a nonempty color is
/// configured for its kind (active or inactive).
pub proof fn lemma_workspaces_label_extends(ws: Seq<WorkspaceInfo>, w: WorkspaceInfo, active_id: i32, config: WorkspacesConfig)
    requires
        ws.len() > 0,
    ensures
        ({
            let color = if w.id == active_id {
                config.active_color
            } else {
                config.inactive_color
            };
            let part = if config.active_color is None && config.inactive_color is None {
                if w.id == active_id {
                    seq!['['] + w.name@ + seq![']']
                } else {
                    w.name@
                }
            } else if color is Some && color->0@.len() > 0 {
                "<span foreground=\""@ + color->0@ + "\">"@ + pango_escaped(w.name@) + "</span>"@
            } else {
                pango_escaped(w.name@)
            };
            workspaces_label(ws.push(w), active_id, config).0 == workspaces_label(ws, active_id, config).0 + "  "@
                + part
        }),
{
    let fc = |x: WorkspaceInfo| colored_part(x, active_id, config);
    let fp = |x: WorkspaceInfo| plain_part(x, active_id);
    assert(ws.push(w).map_values(fc) =~= ws.map_values(fc).push(fc(w)));
    assert(ws.push(w).map_values(fp) =~= ws.map_values(fp).push(fp(w)));
    assert(ws.map_values(fc).push(fc(w)).drop_last() =~= ws.map_values(fc));
    assert(ws.map_values(fp).push(fp(w)).drop_last() =~= ws.map_values(fp));
}

/// What the workspaces label holds: it is markup exactly when the list is not empty and a
/// color is configured for the active or for the inactive workspaces; each workspace with a
/// (nonempty) color of its kind appears, escaped, in a `<span foreground="color">`; and
/// without any color the active workspace appears as `[name]`.
pub proof fn lemma_workspaces_label_parts(ws: Seq<WorkspaceInfo>, active_id: i32, config: WorkspacesConfig)
    ensures
        workspaces_label(ws, active_id, config).1 == (ws.len() > 0 && (config.active_color is Some
            || config.inactive_color is Some)),
        forall|i: int|
            0 <= i < ws.len() && ws[i].id != active_id && config.inactive_color is Some
                && config.inactive_color->0@.len() > 0
                ==> occurs_in(
                "<span foreground=\""@ + config.inactive_color->0@ + "\">"@ + pango_escaped((#[trigger] ws[i]).name@) + "</span>"@,
                workspaces_label(ws, active_id, config).0,
            ),
        forall|i: int|
            0 <= i < ws.len() && ws[i].id == active_id && config.active_color is Some
                && config.active_color->0@.len() > 0
                ==> occurs_in(
                "<span foreground=\""@ + config.active_color->0@ + "\">"@ + pango_escaped((#[trigger] ws[i]).name@) + "</span>"@,
                workspaces_label(ws, active_id, config).0,
            ),
        forall|i: int|
            0 <= i < ws.len() && ws[i].id == active_id && config.active_color is None && config.inactive_color is None
                ==> occurs_in(seq!['['] + (#[trigger] ws[i]).name@ + seq![']'], workspaces_label(ws, active_id, config).0),
{
    let colored = ws.map_values(|w: WorkspaceInfo| colored_part(w, active_id, config));
    let plain = ws.map_values(|w: WorkspaceInfo| plain_part(w, active_id));
    lemma_join_contains(colored, "  "@);
    lemma_join_contains(plain, "  "@);
    assert forall|i: int| 0 <= i < ws.len() implies colored[i] == colored_part(#[trigger] ws[i], active_id, config)
        && plain[i] == plain_part(ws[i], active_id) by {}
}

proof fn lemma_join_step(s: Seq<Seq<char>>, sep: Seq<char>, i: int)
    requires
        0 <= i < s.len(),
    ensures
        join(s.take(i + 1), sep) == (if i == 0 {
            s[0]
        } else {
            join(s.take(i), sep) + sep + s[i]
        }),
{
    assert(s.take(i + 1).drop_last() =~= s.take(i));
    assert(s.take(i + 1).last() == s[i]);
    if i == 0 {
        assert(s.take(1)[0] == s[0]);
    }
}

fn colored_part_exec(ws: &WorkspaceInfo, active_id: i32, config: &WorkspacesConfig) -> (r: String)
    ensures
        r@ == colored_part(*ws, active_id, *config),
{
    let color: Vec<char> = if ws.id == active_id {
        match &config.active_color {
            Some(c) => chars_of(c.as_str()),
            None => Vec::new(),
        }
    } else {
        match &config.inactive_color {
            Some(c) => chars_of(c.as_str()),
            None => Vec::new(),
        }
    };
    let name = pango_escape(ws.name.as_str());
    if color.len() == 0 {
        return name;
    }
    let mut r = String::new();
    push_str(&mut r, "<span foreground=\"");
    push_chars(&mut r, &color);
    push_str(&mut r, "\">");
    push_str(&mut r, name.as_str());
    push_str(&mut r, "</span>");
    r
}

fn plain_part_exec(ws: &WorkspaceInfo, active_id: i32) -> (r: String)
    ensures
        r@ == plain_part(*ws, active_id),
{
    if ws.id == active_id {
        let mut r = String::new();
        push_char(&mut r, '[');
        push_str(&mut r, ws.name.as_str());
        push_char(&mut r, ']');
        assert(r@ =~= seq!['['] + ws.name@ + seq![']']);
        r
    } else {
        ws.name.clone()
    }
}

/// Format a workspace label from `workspaces` (in the order given).
///
/// Returns `(label, use_markup)`: with a color configured, each name is escaped and wrapped
/// in a `<span foreground="…">` for its color (active or inactive), and the label is markup;
/// otherwise plain names with the active one as `[name]`. Entries are joined by two spaces.
pub fn format_label(workspaces: &[WorkspaceInfo], active_id: i32, config: &WorkspacesConfig) -> (r: (
    String,
    bool,
))
    ensures
        (r.0@, r.1) == workspaces_label(workspaces@, active_id, *config),
{
    if workspaces.len() == 0 {
        return (String::new(), false);
    }
    let has_colors = config.active_color.is_some() || config.inactive_color.is_some();
    let ghost parts = if has_colors {
        workspaces@.map_values(|w: WorkspaceInfo| colored_part(w, active_id, *config))
    } else {
        workspaces@.map_values(|w: WorkspaceInfo| plain_part(w, active_id))
    };
    let mut r = String::new();
    for i in 0..workspaces.len()
        invariant
            parts.len() == workspaces@.len(),
            parts == (if has_colors {
                workspaces@.map_values(|w: WorkspaceInfo| colored_part(w, active_id, *config))
            } else {
                workspaces@.map_values(|w: WorkspaceInfo| plain_part(w, active_id))
            }),
            r@ == join(parts.take(i as int), "  "@),
    {
        proof {
            lemma_join_step(parts, "  "@, i as int);
        }
        if i > 0 {
            push_str(&mut r, "  ");
        }
        let part = if has_colors {
            colored_part_exec(&workspaces[i], active_id, config)
        } else {
            plain_part_exec(&workspaces[i], active_id)
        };
        assert(part@ == parts[i as int]);
        if i == 0 {
            assert(r@.len() == 0) by {
                assert(parts.take(0) =~= Seq::<Seq<char>>::empty());
            }
            assert(r@ + part@ =~= part@);
        }
        push_str(&mut r, part.as_str());
    }
    assert(parts.take(workspaces.len() as int) =~= parts);
    (r, has_colors)
}

/// The number of bytes of `c` in UTF-8.
pub open spec fn utf8_len(c: char) -> nat {
    if (c as u32) < 0x80 {
        1
    } else if (c as u32) < 0x800 {
        2
    } else if (c as u32) < 0x10000 {
        3
    } else {
        4
    }
}

/// The number of bytes of `s` in UTF-8.
pub open spec fn utf8_bytes(s: Seq<char>) -> nat
    decreases s.len(),
{
    if s.len() == 0 {
        0
    } else {
        utf8_bytes(s.drop_last()) + utf8_len(s.last())
    }
}

/// `#` followed by UTF-8 text of nine bytes in all.
pub open spec fn has_alpha_form(s: Seq<char>) -> bool {
    s.len() > 0 && s[0] == '#' && utf8_bytes(s) == 9
}

/// The number of leading characters of `s` that take seven bytes, if a character ends there.
pub open spec fn seven_byte_prefix(s: Seq<char>) -> Option<int> {
    if exists|k: int| 0 <= k <= s.len() && utf8_bytes(#[trigger] s.take(k)) == 7 {
        Some(choose|k: int| 0 <= k <= s.len() && utf8_bytes(#[trigger] s.take(k)) == 7)
    } else {
        None
    }
}

proof fn lemma_utf8_bytes_take_mono(s: Seq<char>, a: int, b: int)
    requires
        0 <= a <= b <= s.len(),
    ensures
        utf8_bytes(s.take(a)) + (b - a) <= utf8_bytes(s.take(b)),
    decreases b - a,
{
    if a < b {
        lemma_utf8_bytes_take_mono(s, a, b - 1);
        assert(s.take(b).drop_last() =~= s.take(b - 1));
    }
}

/// `hex` cut to its first seven bytes when it is `#` followed by nine bytes in all
/// (`#RRGGBBAA` becomes `#RRGGBB`); otherwise unchanged.
pub open spec fn alpha_trimmed(s: Seq<char>) -> Seq<char> {
    if has_alpha_form(s) {
        s.take(seven_byte_prefix(s)->0)
    } else {
        s
    }
}

/// Trim an 8-digit hex color (`#RRGGBBAA`) to the 6-digit form Pango expects.
pub fn trim_alpha(hex: &str) -> (r: String)
    requires
        has_alpha_form(hex@) ==> seven_byte_prefix(hex@) is Some,
    ensures
        r@ == alpha_trimmed(hex@),
{
    let v = chars_of(hex);
    let mut bytes: u64 = 0;
    let mut cut: Option<usize> = None;
    let mut i: usize = 0;
    while i < v.len() && bytes <= 9
        invariant
            v@ == hex@,
            i <= v.len(),
            bytes == utf8_bytes(v@.take(i as int)),
            bytes <= 13,
            cut matches Some(k) ==> k <= i && utf8_bytes(v@.take(k as int)) == 7,
            cut is None ==> forall|k: int| 0 <= k <= i ==> utf8_bytes(#[trigger] v@.take(k)) != 7,
        decreases v.len() - i,
    {
        let c = v[i];
        let n: u64 = if (c as u32) < 0x80 {
            1
        } else if (c as u32) < 0x800 {
            2
        } else if (c as u32) < 0x10000 {
            3
        } else {
            4
        };
        assert(v@.take(i + 1).drop_last() =~= v@.take(i as int));
        assert(v@.take(i + 1).last() == c);
        bytes = bytes + n;
        i = i + 1;
        if cut.is_none() && bytes == 7 {
            cut = Some(i);
        }
    }
    if i < v.len() {
        proof {
            lemma_utf8_bytes_take_mono(v@, i as int, v.len() as int);
            assert(v@.take(v.len() as int) =~= v@);
        }
        return string_of(&v);
    }
    assert(v@.take(v.len() as int) =~= v@);
    if v.len() > 0 && v[0] == '#' && bytes == 9 {
        let k = match cut {
            Some(k) => k,
            None => {
                assert(false);
                0
            },
        };
        proof {
            let k2 = seven_byte_prefix(hex@)->0;
            if k2 < k {
                lemma_utf8_bytes_take_mono(hex@, k2, k as int);
            } else if k2 > k {
                lemma_utf8_bytes_take_mono(hex@, k as int, k2);
            }
        }
        return string_of(&slice_chars(&v, 0, k));
    }
    string_of(&v)
}

/// Trimming the alpha digits a second time changes nothing.
pub proof fn lemma_trim_alpha_idempotent(s: Seq<char>)
    requires
        has_alpha_form(s) ==> seven_byte_prefix(s) is Some,
    ensures
        !has_alpha_form(alpha_trimmed(s)),
        alpha_trimmed(alpha_trimmed(s)) == alpha_trimmed(s),
{
    if has_alpha_form(s) {
        let k = seven_byte_prefix(s)->0;
        assert(utf8_bytes(s.take(k)) == 7);
    }
}


/// Whether [`trim_alpha`] can cut `hex`: unless `hex` is `#` followed by nine bytes in all,
/// or a character ends at its seventh byte.
pub fn alpha_trim_ok(hex: &str) -> (r: bool)
    ensures
        r == (has_alpha_form(hex@) ==> seven_byte_prefix(hex@) is Some),
{
    let v = chars_of(hex);
    let mut bytes: u64 = 0;
    let mut cut: bool = false;
    let mut i: usize = 0;
    while i < v.len() && bytes <= 9
        invariant
            v@ == hex@,
            i <= v.len(),
            bytes == utf8_bytes(v@.take(i as int)),
            bytes <= 13,
            cut ==> exists|k: int| 0 <= k <= i && utf8_bytes(#[trigger] v@.take(k)) == 7,
            !cut ==> forall|k: int| 0 <= k <= i ==> utf8_bytes(#[trigger] v@.take(k)) != 7,
        decreases v.len() - i,
    {
        let c = v[i];
        let n: u64 = if (c as u32) < 0x80 {
            1
        } else if (c as u32) < 0x800 {
            2
        } else if (c as u32) < 0x10000 {
            3
        } else {
            4
        };
        assert(v@.take(i + 1).drop_last() =~= v@.take(i as int));
        assert(v@.take(i + 1).last() == c);
        bytes = bytes + n;
        i = i + 1;
        if !cut && bytes == 7 {
            cut = true;
        }
    }
    if i < v.len() {
        proof {
            lemma_utf8_bytes_take_mono(v@, i as int, v.len() as int);
            assert(v@.take(v.len() as int) =~= v@);
        }
        return true;
    }
    assert(v@.take(v.len() as int) =~= v@);
    if v.len() > 0 && v[0] == '#' && bytes == 9 {
        cut
    } else {
        true
    }
}

proof fn lemma_ascii_bytes(s: Seq<char>, k: int)
    requires
        0 <= k <= s.len(),
        forall|i: int| 0 <= i < s.len() ==> (#[trigger] s[i] as u32) < 0x80,
    ensures
        utf8_bytes(s.take(k)) == k,
    decreases k,
{
    if k > 0 {
        assert(s.take(k).drop_last() =~= s.take(k - 1));
        assert(s.take(k).last() == s[k - 1]);
        lemma_ascii_bytes(s, k - 1);
    }
}

/// An ASCII `#RRGGBBAA`-shaped color is trimmed to its first seven characters.
pub proof fn lemma_trim_ascii_color(s: Seq<char>)
    requires
        s.len() == 9,
        s[0] == '#',
        forall|i: int| 0 <= i < s.len() ==> (#[trigger] s[i] as u32) < 0x80,
    ensures
        has_alpha_form(s),
        seven_byte_prefix(s) is Some,
        alpha_trimmed(s) == s.take(7),
{
    lemma_ascii_bytes(s, 9);
    assert(s.take(9) =~= s);
    lemma_ascii_bytes(s, 7);
    let k = seven_byte_prefix(s)->0;
    lemma_ascii_bytes(s, k);
}

} // verus!
