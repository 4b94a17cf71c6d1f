//! Settings of the graphical front end that hold no drawing state: colours,
//! key bindings, status and priority icons, search scopes, perspectives and
//! saved view presets.
use vstd::prelude::*;
use vstd::string::*;
use crate::model::{req_type_key, RelationshipType, RequirementType};
use crate::order::{sort_texts, text_order};
use crate::text::{
    contains_str, has_substring, lowercase, owned, push_char, str_eq, to_lower, trim_str, trimmed, vec_contains_str, views,
};

verus! {

// ---------------------------------------------------------------------------
// Colours and themes
// ---------------------------------------------------------------------------

/// A colour as red, green, blue and alpha components.
#[derive(Debug, Clone, Copy, PartialEq, Eq, Structural)]
pub struct ThemeColor {
    /// Red
    pub r: u8,
    /// Green
    pub g: u8,
    /// Blue
    pub b: u8,
    /// Alpha (255 is opaque)
    pub a: u8,
}

impl ThemeColor {
    /// An opaque colour.
    pub fn new(r: u8, g: u8, b: u8) -> (c: Self)
        ensures
            c == (ThemeColor { r, g, b, a: 255 }),
    {
        ThemeColor { r, g, b, a: 255 }
    }

    /// A colour with the given alpha.
    pub fn with_alpha(r: u8, g: u8, b: u8, a: u8) -> (c: Self)
        ensures
            c == (ThemeColor { r, g, b, a }),
    {
        ThemeColor { r, g, b, a }
    }
}

impl Default for ThemeColor {
    /// Opaque middle grey.
    fn default() -> (c: Self)
        ensures
            c == (ThemeColor { r: 128, g: 128, b: 128, a: 255 }),
    {
        ThemeColor::new(128, 128, 128)
    }
}

/// `s` without its leading `#` characters.
pub open spec fn strip_hashes(s: Seq<char>) -> Seq<char>
    decreases s.len(),
{
    if s.len() > 0 && s[0] == '#' {
        strip_hashes(s.drop_first())
    } else {
        s
    }
}

/// The number of bytes of `c` in UTF-8.
pub open spec fn utf8_width(c: char) -> nat {
    if (c as u32) < 0x80 {
        1
    } else if (c as u32) < 0x800 {
        2
    } else if (c as u32) < 0x10000 {
        3
    } else {
        4
    }
}

/// The number of bytes of `s` in UTF-8 (what `str::len` gives).
pub open spec fn utf8_len(s: Seq<char>) -> nat
    decreases s.len(),
{
    if s.len() == 0 {
        0
    } else {
        utf8_len(s.drop_last()) + utf8_width(s.last())
    }
}

/// Whether byte offset `b` of `s` falls between two characters.
pub open spec fn at_char_boundary(s: Seq<char>, b: nat) -> bool {
    exists|k: int| 0 <= k <= s.len() && utf8_len(#[trigger] s.take(k)) == b
}

/// The text of a hex colour once trimmed and stripped of leading `#`.
pub open spec fn hex_body(hex: Seq<char>) -> Seq<char> {
    strip_hashes(trimmed(hex))
}

/// Whether slicing the text of a hex colour into byte pairs would cut a
/// character: it is six bytes long, but byte 2 or 4 falls inside one.
pub open spec fn hex_slicing_cuts(hex: Seq<char>) -> bool {
    let h = hex_body(hex);
    utf8_len(h) == 6 && (!at_char_boundary(h, 2) || !at_char_boundary(h, 4))
}

/// Whether `c` is a hexadecimal digit.
pub open spec fn is_hex_digit(c: char) -> bool {
    ('0' <= c && c <= '9') || ('a' <= c && c <= 'f') || ('A' <= c && c <= 'F')
}

/// The value of a hexadecimal digit.
pub open spec fn hex_value(c: char) -> nat {
    if '0' <= c && c <= '9' {
        (c as u32 - '0' as u32) as nat
    } else if 'a' <= c && c <= 'f' {
        (c as u32 - 'a' as u32 + 10) as nat
    } else {
        (c as u32 - 'A' as u32 + 10) as nat
    }
}

/// What `u8::from_str_radix(..., 16)` gives for the two characters `a`, `b`:
/// an optional `+` then hexadecimal digits.
pub open spec fn hex_pair(a: char, b: char) -> Option<u8> {
    if a == '+' {
        if is_hex_digit(b) {
            Some(hex_value(b) as u8)
        } else {
            None
        }
    } else if is_hex_digit(a) && is_hex_digit(b) {
        Some((hex_value(a) * 16 + hex_value(b)) as u8)
    } else {
        None
    }
}

/// The colour a hex text such as `#ff6b6b` denotes: after trimming and
/// stripping leading `#`, six single-byte characters read as three pairs.
pub open spec fn hex_color(hex: Seq<char>) -> Option<ThemeColor> {
    let h = hex_body(hex);
    if h.len() != 6 || utf8_len(h) != 6 {
        None
    } else {
        match (hex_pair(h[0], h[1]), hex_pair(h[2], h[3]), hex_pair(h[4], h[5])) {
            (Some(r), Some(g), Some(b)) => Some(ThemeColor { r, g, b, a: 255 }),
            _ => None,
        }
    }
}

fn char_width(c: char) -> (w: usize)
    ensures
        w == utf8_width(c),
{
    let v = c as u32;
    if v < 0x80 {
        1
    } else if v < 0x800 {
        2
    } else if v < 0x10000 {
        3
    } else {
        4
    }
}

fn hex_digit_value(c: char) -> (r: Option<u8>)
    ensures
        is_hex_digit(c) ==> r == Some(hex_value(c) as u8),
        !is_hex_digit(c) ==> r is None,
{
    if '0' <= c && c <= '9' {
        Some((c as u32 - '0' as u32) as u8)
    } else if 'a' <= c && c <= 'f' {
        Some((c as u32 - 'a' as u32 + 10) as u8)
    } else if 'A' <= c && c <= 'F' {
        Some((c as u32 - 'A' as u32 + 10) as u8)
    } else {
        None
    }
}

fn parse_hex_pair(a: char, b: char) -> (r: Option<u8>)
    ensures
        r == hex_pair(a, b),
{
    if a == '+' {
        hex_digit_value(b)
    } else {
        match (hex_digit_value(a), hex_digit_value(b)) {
            (Some(x), Some(y)) => Some(x * 16 + y),
            _ => None,
        }
    }
}

proof fn lemma_utf8_len_ascii(s: Seq<char>)
    ensures
        utf8_len(s) >= s.len(),
        utf8_len(s) == s.len() ==> forall|i: int| 0 <= i < s.len() ==> utf8_width(#[trigger] s[i]) == 1,
    decreases s.len(),
{
    if s.len() > 0 {
        lemma_utf8_len_ascii(s.drop_last());
        assert forall|i: int| utf8_len(s) == s.len() && 0 <= i < s.len() implies utf8_width(#[trigger] s[i]) == 1 by {
            if i < s.len() - 1 {
                assert(s.drop_last()[i] == s[i]);
            }
        }
    }
}

proof fn lemma_utf8_len_prefix(s: Seq<char>, k: int)
    requires
        0 <= k <= s.len(),
    ensures
        utf8_len(s.take(k)) <= utf8_len(s),
    decreases s.len() - k,
{
    if k < s.len() {
        lemma_utf8_len_prefix(s, k + 1);
        assert(s.take(k + 1).drop_last() =~= s.take(k));
    } else {
        assert(s.take(k) =~= s);
    }
}

/// The colour that a hex text such as `#ff6b6b` or `ff6b6b` denotes (opaque),
/// or none when it is not six hexadecimal digits (each pair may start with
/// `+`, as `u8::from_str_radix` allows). Texts whose byte pairs would cut a
/// character are left out.
pub fn parse_hex_color(hex: &str) -> (r: Option<ThemeColor>)
    requires
        !hex_slicing_cuts(hex@),
    ensures
        r == hex_color(hex@),
{
    let t = trim_str(hex);
    let n = t.unicode_len();
    let mut i: usize = 0;
    proof {
        assert(t@.skip(0) =~= t@);
    }
    while i < n && t.as_str().get_char(i) == '#'
        invariant
            n == t@.len(),
            i <= n,
            strip_hashes(t@) == strip_hashes(t@.skip(i as int)),
        decreases n - i,
    {
        proof {
            assert(t@.skip(i as int).drop_first() =~= t@.skip(i as int + 1));
        }
        i = i + 1;
    }
    let mut h = String::new();
    let mut bytes: usize = 0;
    let mut k: usize = i;
    proof {
        assert(t@.skip(i as int) =~= t@.subrange(i as int, n as int));
        reveal_strlit("");
    }
    while k < n
        invariant
            n == t@.len(),
            i <= k <= n,
            h@ == t@.subrange(i as int, k as int),
            bytes == utf8_len(h@),
            bytes <= 6,
            i < n ==> t@[i as int] != '#',
            strip_hashes(t@) == strip_hashes(t@.skip(i as int)),
            t@ == trimmed(hex@),
        decreases n - k,
    {
        let c = t.as_str().get_char(k);
        let w = char_width(c);
        proof {
            assert(h@.push(c).drop_last() =~= h@);
        }
        if bytes + w > 6 {
            proof {
                let body = t@.subrange(i as int, n as int);
                assert(body.take(k - i + 1) =~= h@.push(c));
                lemma_utf8_len_prefix(body, k - i + 1);
                assert(t@.skip(i as int) =~= body);
                if i < n {
                    assert(t@.skip(i as int)[0] != '#');
                }
                assert(hex_body(hex@) == body);
            }
            return None;
        }
        push_char(&mut h, c);
        bytes = bytes + w;
        proof {
            assert(h@ =~= t@.subrange(i as int, k as int + 1));
        }
        k = k + 1;
    }
    proof {
        assert(h@ == hex_body(hex@)) by {
            if i < n {
                assert(t@.skip(i as int)[0] != '#');
            }
            assert(t@.skip(i as int) =~= t@.subrange(i as int, n as int));
        }
    }
    if bytes != 6 || h.unicode_len() != 6 {
        return None;
    }
    proof {
        lemma_utf8_len_ascii(h@);
    }
    let hs = h.as_str();
    match (
        parse_hex_pair(hs.get_char(0), hs.get_char(1)),
        parse_hex_pair(hs.get_char(2), hs.get_char(3)),
        parse_hex_pair(hs.get_char(4), hs.get_char(5)),
    ) {
        (Some(r), Some(g), Some(b)) => Some(ThemeColor::new(r, g, b)),
        _ => None,
    }
}

/// The theme a custom theme starts from.
#[derive(Debug, Clone, Copy, PartialEq, Eq, Structural)]
pub enum BaseTheme {
    /// Dark (the default)
    Dark,
    /// Light
    Light,
}

impl Default for BaseTheme {
    fn default() -> (t: Self)
        ensures
            t == BaseTheme::Dark,
    {
        BaseTheme::Dark
    }
}

impl BaseTheme {
    /// The name shown for the base theme.
    pub fn label(&self) -> (r: &'static str)
        ensures
            r@ == (match *self {
                BaseTheme::Dark => "Dark"@,
                BaseTheme::Light => "Light"@,
            }),
    {
        match self {
            BaseTheme::Dark => "Dark",
            BaseTheme::Light => "Light",
        }
    }
}

/// The sections of the theme editor.
#[derive(Debug, Clone, Copy, PartialEq, Eq, Structural)]
pub enum ThemeEditorCategory {
    /// Backgrounds (the default)
    Backgrounds,
    /// Text
    Text,
    /// Widgets
    Widgets,
    /// Selection
    Selection,
    /// Borders and rounding
    Borders,
    /// Spacing and layout
    Spacing,
}

impl Default for ThemeEditorCategory {
    fn default() -> (c: Self)
        ensures
            c == ThemeEditorCategory::Backgrounds,
    {
        ThemeEditorCategory::Backgrounds
    }
}

/// The name shown for a theme editor section.
pub open spec fn category_label(c: ThemeEditorCategory) -> Seq<char> {
    match c {
        ThemeEditorCategory::Backgrounds => "Backgrounds"@,
        ThemeEditorCategory::Text => "Text"@,
        ThemeEditorCategory::Widgets => "Widgets"@,
        ThemeEditorCategory::Selection => "Selection"@,
        ThemeEditorCategory::Borders => "Borders & Rounding"@,
        ThemeEditorCategory::Spacing => "Spacing & Layout"@,
    }
}

impl ThemeEditorCategory {
    /// The name shown for the section.
    pub fn label(&self) -> (r: &'static str)
        ensures
            r@ == category_label(*self),
    {
        match self {
            ThemeEditorCategory::Backgrounds => "Backgrounds",
            ThemeEditorCategory::Text => "Text",
            ThemeEditorCategory::Widgets => "Widgets",
            ThemeEditorCategory::Selection => "Selection",
            ThemeEditorCategory::Borders => "Borders & Rounding",
            ThemeEditorCategory::Spacing => "Spacing & Layout",
        }
    }

    /// Every section, in display order.
    pub fn all() -> (r: &'static [ThemeEditorCategory])
        ensures
            r@ == seq![
                ThemeEditorCategory::Backgrounds,
                ThemeEditorCategory::Text,
                ThemeEditorCategory::Widgets,
                ThemeEditorCategory::Selection,
                ThemeEditorCategory::Borders,
                ThemeEditorCategory::Spacing,
            ],
    {
        &[
            ThemeEditorCategory::Backgrounds,
            ThemeEditorCategory::Text,
            ThemeEditorCategory::Widgets,
            ThemeEditorCategory::Selection,
            ThemeEditorCategory::Borders,
            ThemeEditorCategory::Spacing,
        ]
    }
}

// ---------------------------------------------------------------------------
// Key bindings
// ---------------------------------------------------------------------------

/// Where a key binding is active.
#[derive(Debug, Clone, Copy, PartialEq, Eq, Structural, Hash)]
pub enum KeyContext {
    /// Everywhere (the default)
    Global,
    /// In the requirements list, when no text is edited
    RequirementsList,
    /// When a requirement's details are shown
    DetailView,
    /// In the add or edit form
    Form,
}

impl Default for KeyContext {
    fn default() -> (c: Self)
        ensures
            c == KeyContext::Global,
    {
        KeyContext::Global
    }
}

/// The name shown for a key context.
pub open spec fn context_label(c: KeyContext) -> Seq<char> {
    match c {
        KeyContext::Global => "Global"@,
        KeyContext::RequirementsList => "Requirements List"@,
        KeyContext::DetailView => "Detail View"@,
        KeyContext::Form => "Form"@,
    }
}

impl KeyContext {
    /// The name shown for the context.
    pub fn label(&self) -> (r: &'static str)
        ensures
            r@ == context_label(*self),
    {
        match self {
            KeyContext::Global => "Global",
            KeyContext::RequirementsList => "Requirements List",
            KeyContext::DetailView => "Detail View",
            KeyContext::Form => "Form",
        }
    }

    /// Every context, in display order.
    pub fn all() -> (r: &'static [KeyContext])
        ensures
            r@ == seq![KeyContext::Global, KeyContext::RequirementsList, KeyContext::DetailView, KeyContext::Form],
    {
        &[KeyContext::Global, KeyContext::RequirementsList, KeyContext::DetailView, KeyContext::Form]
    }
}

/// The actions that keys can be bound to.
#[derive(Debug, Clone, Copy, PartialEq, Eq, Structural, Hash)]
pub enum KeyAction {
    /// Select the requirement above
    NavigateUp,
    /// Select the requirement below
    NavigateDown,
    /// Edit the selected requirement
    Edit,
    /// Expand or collapse the selected requirement
    ToggleExpand,
    /// Save
    Save,
    /// Larger text
    ZoomIn,
    /// Smaller text
    ZoomOut,
    /// Default text size
    ZoomReset,
    /// Next theme
    CycleTheme,
    /// Add a requirement
    NewRequirement,
}

/// The name shown for an action.
pub open spec fn action_label(a: KeyAction) -> Seq<char> {
    match a {
        KeyAction::NavigateUp => "Navigate Up"@,
        KeyAction::NavigateDown => "Navigate Down"@,
        KeyAction::Edit => "Edit Requirement"@,
        KeyAction::ToggleExpand => "Toggle Expand/Collapse"@,
        KeyAction::Save => "Save"@,
        KeyAction::ZoomIn => "Zoom In"@,
        KeyAction::ZoomOut => "Zoom Out"@,
        KeyAction::ZoomReset => "Reset Zoom"@,
        KeyAction::CycleTheme => "Cycle Theme"@,
        KeyAction::NewRequirement => "New Requirement"@,
    }
}

/// The context in which an action is bound by default: navigation and
/// editing in the requirements list, saving in the form, the rest
/// everywhere.
pub open spec fn action_context(a: KeyAction) -> KeyContext {
    match a {
        KeyAction::NavigateUp | KeyAction::NavigateDown | KeyAction::Edit | KeyAction::ToggleExpand => {
            KeyContext::RequirementsList
        },
        KeyAction::Save => KeyContext::Form,
        _ => KeyContext::Global,
    }
}

/// Every action, in display order.
pub open spec fn all_actions() -> Seq<KeyAction> {
    seq![
        KeyAction::NavigateUp,
        KeyAction::NavigateDown,
        KeyAction::Edit,
        KeyAction::ToggleExpand,
        KeyAction::Save,
        KeyAction::ZoomIn,
        KeyAction::ZoomOut,
        KeyAction::ZoomReset,
        KeyAction::CycleTheme,
        KeyAction::NewRequirement,
    ]
}

impl KeyAction {
    /// The name shown for the action.
    pub fn label(&self) -> (r: &'static str)
        ensures
            r@ == action_label(*self),
    {
        match self {
            KeyAction::NavigateUp => "Navigate Up",
            KeyAction::NavigateDown => "Navigate Down",
            KeyAction::Edit => "Edit Requirement",
            KeyAction::ToggleExpand => "Toggle Expand/Collapse",
            KeyAction::Save => "Save",
            KeyAction::ZoomIn => "Zoom In",
            KeyAction::ZoomOut => "Zoom Out",
            KeyAction::ZoomReset => "Reset Zoom",
            KeyAction::CycleTheme => "Cycle Theme",
            KeyAction::NewRequirement => "New Requirement",
        }
    }

    /// The context in which the action is bound by default.
    pub fn default_context(&self) -> (c: KeyContext)
        ensures
            c == action_context(*self),
    {
        match self {
            KeyAction::NavigateUp => KeyContext::RequirementsList,
            KeyAction::NavigateDown => KeyContext::RequirementsList,
            KeyAction::Edit => KeyContext::RequirementsList,
            KeyAction::ToggleExpand => KeyContext::RequirementsList,
            KeyAction::Save => KeyContext::Form,
            KeyAction::ZoomIn => KeyContext::Global,
            KeyAction::ZoomOut => KeyContext::Global,
            KeyAction::ZoomReset => KeyContext::Global,
            KeyAction::CycleTheme => KeyContext::Global,
            KeyAction::NewRequirement => KeyContext::Global,
        }
    }

    /// Every action, in display order.
    pub fn all() -> (r: &'static [KeyAction])
        ensures
            r@ == all_actions(),
    {
        &[
            KeyAction::NavigateUp,
            KeyAction::NavigateDown,
            KeyAction::Edit,
            KeyAction::ToggleExpand,
            KeyAction::Save,
            KeyAction::ZoomIn,
            KeyAction::ZoomOut,
            KeyAction::ZoomReset,
            KeyAction::CycleTheme,
            KeyAction::NewRequirement,
        ]
    }
}

/// A key with modifiers, active in a context.
#[derive(Debug, Clone, PartialEq, Eq)]
pub struct KeyBinding {
    /// Name of the key (such as `Up`, `Enter`, `S` or `0`)
    pub key_name: String,
    /// Whether Ctrl must be held
    pub ctrl: bool,
    /// Whether Shift must be held
    pub shift: bool,
    /// Whether Alt must be held
    pub alt: bool,
    /// Where the binding is active
    pub context: KeyContext,
}

/// How a binding is shown: the held modifiers then the key, joined by `+`.
pub open spec fn binding_text(b: KeyBinding) -> Seq<char> {
    (if b.ctrl {
        "Ctrl+"@
    } else {
        Seq::empty()
    }) + (if b.shift {
        "Shift+"@
    } else {
        Seq::empty()
    }) + (if b.alt {
        "Alt+"@
    } else {
        Seq::empty()
    }) + b.key_name@
}

/// Whether a binding for `bound` applies in context `current`: a global
/// binding everywhere, a requirements list binding also in the detail view
/// (which shows the list), any other only in its own context.
pub open spec fn context_applies(bound: KeyContext, current: KeyContext) -> bool {
    bound == KeyContext::Global || bound == current || (bound == KeyContext::RequirementsList && current
        == KeyContext::DetailView)
}

impl KeyBinding {
    /// A binding of the key named `key_name` without modifiers.
    pub fn new(key_name: &str, context: KeyContext) -> (b: Self)
        ensures
            b.key_name@ == key_name@,
            !b.ctrl && !b.shift && !b.alt,
            b.context == context,
    {
        KeyBinding { key_name: owned(key_name), ctrl: false, shift: false, alt: false, context }
    }

    /// The binding with Ctrl held.
    pub fn with_ctrl(self) -> (b: Self)
        ensures
            b == (KeyBinding { ctrl: true, ..self }),
    {
        KeyBinding { ctrl: true, ..self }
    }

    /// The binding with Shift held.
    pub fn with_shift(self) -> (b: Self)
        ensures
            b == (KeyBinding { shift: true, ..self }),
    {
        KeyBinding { shift: true, ..self }
    }

    /// How the binding is shown, such as `Ctrl+Shift+Plus`.
    pub fn display(&self) -> (r: String)
        ensures
            r@ == binding_text(*self),
    {
        let mut r = String::new();
        if self.ctrl {
            r.append("Ctrl+");
        }
        if self.shift {
            r.append("Shift+");
        }
        if self.alt {
            r.append("Alt+");
        }
        r.append(self.key_name.as_str());
        proof {
            reveal_strlit("");
        }
        r
    }

    /// Whether the binding applies in context `current`.
    pub fn applies_in(&self, current: KeyContext) -> (r: bool)
        ensures
            r == context_applies(self.context, current),
    {
        self.context == KeyContext::Global || self.context == current || (self.context
            == KeyContext::RequirementsList && current == KeyContext::DetailView)
    }
}

/// The key, Ctrl and Shift of the default binding of an action.
pub open spec fn default_key(a: KeyAction) -> (Seq<char>, bool, bool) {
    match a {
        KeyAction::NavigateUp => ("Up"@, false, false),
        KeyAction::NavigateDown => ("Down"@, false, false),
        KeyAction::Edit => ("Enter"@, false, false),
        KeyAction::ToggleExpand => ("Space"@, false, false),
        KeyAction::Save => ("S"@, true, false),
        KeyAction::ZoomIn => ("Plus"@, true, true),
        KeyAction::ZoomOut => ("Minus"@, true, false),
        KeyAction::ZoomReset => ("0"@, true, false),
        KeyAction::CycleTheme => ("T"@, true, false),
        KeyAction::NewRequirement => ("N"@, true, false),
    }
}

/// The bindings of actions to keys.
#[derive(Debug, Clone)]
pub struct KeyBindings {
    /// One binding per action, as (action, binding)
    pub bindings: Vec<(KeyAction, KeyBinding)>,
}

/// Whether entry `i` of `v` is the first binding of action `a`.
pub open spec fn first_binding(v: Seq<(KeyAction, KeyBinding)>, a: KeyAction, i: int) -> bool {
    0 <= i < v.len() && v[i].0 == a && forall|j: int| 0 <= j < i ==> (#[trigger] v[j]).0 != a
}

fn default_binding(a: KeyAction, key: &str, ctrl: bool, shift: bool) -> (r: (KeyAction, KeyBinding))
    ensures
        r.0 == a,
        r.1.key_name@ == key@,
        r.1.ctrl == ctrl,
        r.1.shift == shift,
        !r.1.alt,
        r.1.context == action_context(a),
{
    (a, KeyBinding { key_name: owned(key), ctrl, shift, alt: false, context: a.default_context() })
}

impl Default for KeyBindings {
    /// Each action bound in its default context: arrows, Enter and Space
    /// for the list, Ctrl+S to save, Ctrl+Shift+Plus, Ctrl+Minus and Ctrl+0
    /// for the zoom, Ctrl+T for the theme and Ctrl+N for a new requirement.
    fn default() -> (r: Self)
        ensures
            r.bindings@.len() == 10,
            forall|i: int|
                0 <= i < 10 ==> {
                    let (a, b) = #[trigger] r.bindings@[i];
                    &&& a == all_actions()[i]
                    &&& (b.key_name@, b.ctrl, b.shift) == default_key(a)
                    &&& !b.alt
                    &&& b.context == action_context(a)
                },
    {
        let mut v: Vec<(KeyAction, KeyBinding)> = Vec::new();
        v.push(default_binding(KeyAction::NavigateUp, "Up", false, false));
        v.push(default_binding(KeyAction::NavigateDown, "Down", false, false));
        v.push(default_binding(KeyAction::Edit, "Enter", false, false));
        v.push(default_binding(KeyAction::ToggleExpand, "Space", false, false));
        v.push(default_binding(KeyAction::Save, "S", true, false));
        v.push(default_binding(KeyAction::ZoomIn, "Plus", true, true));
        v.push(default_binding(KeyAction::ZoomOut, "Minus", true, false));
        v.push(default_binding(KeyAction::ZoomReset, "0", true, false));
        v.push(default_binding(KeyAction::CycleTheme, "T", true, false));
        v.push(default_binding(KeyAction::NewRequirement, "N", true, false));
        KeyBindings { bindings: v }
    }
}

impl KeyBindings {
    /// The binding of `action`, if it has one.
    pub fn get(&self, action: KeyAction) -> (r: Option<&KeyBinding>)
        ensures
            match r {
                Some(b) => exists|i: int| first_binding(self.bindings@, action, i) && *b == self.bindings@[i].1,
                None => forall|i: int| 0 <= i < self.bindings@.len() ==> (#[trigger] self.bindings@[i]).0 != action,
            },
    {
        let mut i: usize = 0;
        while i < self.bindings.len()
            invariant
                i <= self.bindings@.len(),
                forall|j: int| 0 <= j < i ==> (#[trigger] self.bindings@[j]).0 != action,
            decreases self.bindings.len() - i,
        {
            if self.bindings[i].0 == action {
                proof {
                    assert(first_binding(self.bindings@, action, i as int));
                }
                return Some(&self.bindings[i].1);
            }
            i = i + 1;
        }
        None
    }
}

// ---------------------------------------------------------------------------
// Status and priority icons
// ---------------------------------------------------------------------------

/// Whether `icon` is what icon table `icons` with fallback `fallback` shows
/// for `text`: the icon of the first entry whose key is `text` in lowercase;
/// else the icon of some entry whose key occurs in it (any one, as a table
/// without order gives); else the fallback.
pub open spec fn icon_for(icons: Seq<(String, String)>, fallback: Seq<char>, text: Seq<char>, icon: Seq<char>) -> bool {
    icon_for_lower(icons, fallback, lowercase(text), icon)
}

/// Whether `icon` is what icon table `icons` with fallback `fallback` shows
/// for a text whose lowercase form is `t`: the icon of the first entry whose
/// key is `t`; else the icon of some entry whose key occurs in `t`; else the
/// fallback.
pub open spec fn icon_for_lower(icons: Seq<(String, String)>, fallback: Seq<char>, t: Seq<char>, icon: Seq<char>) -> bool {
    if exists|i: int| 0 <= i < icons.len() && (#[trigger] icons[i]).0@ == t {
        exists|i: int|
            0 <= i < icons.len() && (#[trigger] icons[i]).0@ == t && icon == icons[i].1@ && forall|j: int|
                0 <= j < i ==> (#[trigger] icons[j]).0@ != t
    } else if exists|i: int| 0 <= i < icons.len() && has_substring(t, (#[trigger] icons[i]).0@) {
        exists|i: int| 0 <= i < icons.len() && has_substring(t, (#[trigger] icons[i]).0@) && icon == icons[i].1@
    } else {
        icon == fallback
    }
}

fn icon_lookup<'a>(icons: &'a Vec<(String, String)>, fallback: &'a String, text: &str) -> (r: &'a str)
    ensures
        icon_for(icons@, fallback@, text@, r@),
{
    let t = to_lower(text);
    lookup_icon_lowered(icons, fallback, t.as_str())
}

/// The icon that icon table `icons` with fallback `fallback` shows for a
/// text whose lowercase form is `t`: the first entry keyed `t`, else the
/// first entry whose key occurs in `t`, else the fallback.
pub fn lookup_icon_lowered<'a>(icons: &'a Vec<(String, String)>, fallback: &'a String, t: &str) -> (r: &'a str)
    ensures
        icon_for_lower(icons@, fallback@, t@, r@),
{
    let mut i: usize = 0;
    while i < icons.len()
        invariant
            i <= icons@.len(),
            forall|j: int| 0 <= j < i ==> (#[trigger] icons@[j]).0@ != t@,
        decreases icons.len() - i,
    {
        if str_eq(icons[i].0.as_str(), t) {
            return icons[i].1.as_str();
        }
        i = i + 1;
    }
    let mut k: usize = 0;
    while k < icons.len()
        invariant
            k <= icons@.len(),
            forall|j: int| 0 <= j < icons@.len() ==> (#[trigger] icons@[j]).0@ != t@,
            forall|j: int| 0 <= j < k ==> !has_substring(t@, (#[trigger] icons@[j]).0@),
        decreases icons.len() - k,
    {
        if contains_str(t, icons[k].0.as_str()) {
            return icons[k].1.as_str();
        }
        k = k + 1;
    }
    fallback.as_str()
}

fn icon_entry(key: &str, icon: &str) -> (r: (String, String))
    ensures
        r.0@ == key@,
        r.1@ == icon@,
{
    (owned(key), owned(icon))
}

/// Whether `i` is the first entry of `v` with keyword `k`.
pub open spec fn first_keyword(v: Seq<(Seq<char>, Seq<char>)>, k: Seq<char>, i: int) -> bool {
    0 <= i < v.len() && v[i].0 == k && forall|j: int| 0 <= j < i ==> (#[trigger] v[j]).0 != k
}

/// Whether some entry of `v` has keyword `k`.
pub open spec fn has_keyword(v: Seq<(Seq<char>, Seq<char>)>, k: Seq<char>) -> bool {
    exists|i: int| 0 <= i < v.len() && (#[trigger] v[i]).0 == k
}

/// The entries of an icon table after setting the icon of `k` to `icon`:
/// the first entry with keyword `k` gets the icon; without one, the entry is
/// appended.
pub open spec fn icons_set(v: Seq<(Seq<char>, Seq<char>)>, k: Seq<char>, icon: Seq<char>) -> Seq<
    (Seq<char>, Seq<char>),
> {
    if has_keyword(v, k) {
        v.update(choose|i: int| first_keyword(v, k, i), (k, icon))
    } else {
        v.push((k, icon))
    }
}

/// The entries of an icon table without those with keyword `k`.
pub open spec fn icons_without(v: Seq<(Seq<char>, Seq<char>)>, k: Seq<char>) -> Seq<(Seq<char>, Seq<char>)> {
    v.filter(|e: (Seq<char>, Seq<char>)| e.0 != k)
}

/// Whether no two entries of an icon table share a keyword.
pub open spec fn keys_distinct(v: Seq<(Seq<char>, Seq<char>)>) -> bool {
    forall|i: int, j: int| 0 <= i < j < v.len() ==> (#[trigger] v[i]).0 != (#[trigger] v[j]).0
}

/// Setting an icon keeps the keywords of a table distinct.
pub proof fn lemma_icons_set_distinct(v: Seq<(Seq<char>, Seq<char>)>, k: Seq<char>, icon: Seq<char>)
    requires
        keys_distinct(v),
    ensures
        keys_distinct(icons_set(v, k, icon)),
{
    let w = icons_set(v, k, icon);
    if has_keyword(v, k) {
        lemma_first_keyword_exists(v, k);
        let c = choose|c: int| first_keyword(v, k, c);
        assert(first_keyword(v, k, c));
        assert forall|i: int, j: int| 0 <= i < j < w.len() implies (#[trigger] w[i]).0 != (#[trigger] w[j]).0 by {
            assert(w[i].0 == v[i].0 && w[j].0 == v[j].0);
        }
    } else {
        assert forall|i: int, j: int| 0 <= i < j < w.len() implies (#[trigger] w[i]).0 != (#[trigger] w[j]).0 by {
            if j == v.len() {
                assert(w[i] == v[i]);
                assert(v[i].0 != k);
            } else {
                assert(w[i] == v[i] && w[j] == v[j]);
            }
        }
    }
}

proof fn lemma_first_keyword_exists(v: Seq<(Seq<char>, Seq<char>)>, k: Seq<char>)
    requires
        has_keyword(v, k),
    ensures
        exists|c: int| first_keyword(v, k, c),
    decreases v.len(),
{
    let d = v.drop_last();
    if has_keyword(d, k) {
        lemma_first_keyword_exists(d, k);
        let c = choose|c: int| first_keyword(d, k, c);
        assert forall|j: int| 0 <= j < c implies (#[trigger] v[j]).0 != k by {
            assert(v[j] == d[j]);
        }
        assert(v[c] == d[c]);
        assert(first_keyword(v, k, c));
    } else {
        let a = choose|a: int| 0 <= a < v.len() && (#[trigger] v[a]).0 == k;
        if a < v.len() - 1 {
            assert(d[a] == v[a]);
        }
        assert forall|j: int| 0 <= j < v.len() - 1 implies (#[trigger] v[j]).0 != k by {
            assert(v[j] == d[j]);
        }
        assert(first_keyword(v, k, v.len() - 1));
    }
}

/// Removing a keyword keeps the keywords of a table distinct, and keeps
/// only entries the table had.
pub proof fn lemma_icons_without_distinct(v: Seq<(Seq<char>, Seq<char>)>, k: Seq<char>)
    requires
        keys_distinct(v),
    ensures
        keys_distinct(icons_without(v, k)),
        forall|e: (Seq<char>, Seq<char>)| icons_without(v, k).contains(e) ==> v.contains(e),
    decreases v.len(),
{
    reveal(Seq::filter);
    if v.len() > 0 {
        let d = v.drop_last();
        assert(keys_distinct(d)) by {
            assert forall|i: int, j: int| 0 <= i < j < d.len() implies (#[trigger] d[i]).0 != (#[trigger] d[j]).0 by {
                assert(d[i] == v[i] && d[j] == v[j]);
            }
        }
        lemma_icons_without_distinct(d, k);
        let f = icons_without(d, k);
        assert forall|e: (Seq<char>, Seq<char>)| f.contains(e) implies v.contains(e) by {
            assert(d.contains(e));
            let a = choose|a: int| 0 <= a < d.len() && d[a] == e;
            assert(d[a] == v[a]);
            assert(v[a] == e);
        }
        if v.last().0 != k {
            let w = f.push(v.last());
            assert(icons_without(v, k) == w);
            assert forall|i: int, j: int| 0 <= i < j < w.len() implies (#[trigger] w[i]).0 != (#[trigger] w[j]).0 by {
                if j == f.len() {
                    assert(f.contains(w[i]));
                    assert(d.contains(w[i]));
                    let a = choose|a: int| 0 <= a < d.len() && d[a] == w[i];
                    assert(v[a] == d[a]);
                    assert(v[a].0 != v[v.len() - 1].0);
                } else {
                    assert(w[i] == f[i] && w[j] == f[j]);
                }
            }
            assert forall|e: (Seq<char>, Seq<char>)| w.contains(e) implies v.contains(e) by {
                let a = choose|a: int| 0 <= a < w.len() && w[a] == e;
                if a == f.len() {
                    assert(v[v.len() - 1] == e);
                } else {
                    assert(f[a] == e);
                    assert(f.contains(e));
                }
            }
        }
    }
}

/// Sets the icon of keyword `keyword` in an icon table, as a map insert
/// does: the entry with that keyword gets the icon, else a new entry is
/// appended.
pub fn set_icon_entry(icons: &mut Vec<(String, String)>, keyword: String, icon: String)
    ensures
        icon_views(final(icons)@) == icons_set(icon_views(old(icons)@), keyword@, icon@),
        keys_distinct(icon_views(old(icons)@)) ==> keys_distinct(icon_views(final(icons)@)),
{
    let ghost v = icon_views(icons@);
    proof {
        if keys_distinct(v) {
            lemma_icons_set_distinct(v, keyword@, icon@);
        }
    }
    let mut i: usize = 0;
    while i < icons.len()
        invariant
            i <= icons@.len(),
            v == icon_views(icons@),
            icons@ == old(icons)@,
            forall|j: int| 0 <= j < i ==> (#[trigger] v[j]).0 != keyword@,
        decreases icons.len() - i,
    {
        if str_eq(icons[i].0.as_str(), keyword.as_str()) {
            proof {
                assert(first_keyword(v, keyword@, i as int));
                assert(has_keyword(v, keyword@));
                let c = choose|c: int| first_keyword(v, keyword@, c);
                if c < i {
                    assert(v[c].0 != keyword@);
                } else if i < c {
                    assert(v[i as int].0 != keyword@);
                }
            }
            icons.set(i, (keyword, icon));
            proof {
                assert(icon_views(icons@) =~= icons_set(v, keyword@, icon@));
            }
            return;
        }
        i = i + 1;
    }
    proof {
        assert(!has_keyword(v, keyword@));
    }
    icons.push((keyword, icon));
    proof {
        assert(icon_views(icons@) =~= icons_set(v, keyword@, icon@));
    }
}

/// Removes the entries with keyword `keyword` from an icon table.
pub fn remove_icon_entry(icons: &mut Vec<(String, String)>, keyword: &str)
    ensures
        icon_views(final(icons)@) == icons_without(icon_views(old(icons)@), keyword@),
        keys_distinct(icon_views(old(icons)@)) ==> keys_distinct(icon_views(final(icons)@)),
{
    let ghost v = icon_views(icons@);
    proof {
        if keys_distinct(v) {
            lemma_icons_without_distinct(v, keyword@);
        }
    }
    let ghost p = |e: (Seq<char>, Seq<char>)| e.0 != keyword@;
    let mut kept: Vec<(String, String)> = Vec::new();
    let mut i: usize = 0;
    proof {
        reveal(Seq::filter);
        assert(v.take(0) =~= Seq::<(Seq<char>, Seq<char>)>::empty());
    }
    while i < icons.len()
        invariant
            i <= icons@.len(),
            v == icon_views(icons@),
            p == (|e: (Seq<char>, Seq<char>)| e.0 != keyword@),
            icon_views(kept@) == v.take(i as int).filter(p),
        decreases icons.len() - i,
    {
        proof {
            assert(v.take(i as int + 1) =~= v.take(i as int).push(v[i as int]));
            v.take(i as int).lemma_filter_push(v[i as int], p);
        }
        if !str_eq(icons[i].0.as_str(), keyword) {
            let e = (icons[i].0.clone(), icons[i].1.clone());
            kept.push(e);
            proof {
                assert(icon_views(kept@) =~= v.take(i as int + 1).filter(p));
            }
        } else {
            proof {
                assert(icon_views(kept@) =~= v.take(i as int + 1).filter(p));
            }
        }
        i = i + 1;
    }
    proof {
        assert(v.take(v.len() as int) =~= v);
    }
    *icons = kept;
}

/// The keywords of an icon table, in order.
pub open spec fn keywords(v: Seq<(String, String)>) -> Seq<Seq<char>> {
    v.map_values(|e: (String, String)| e.0@)
}

/// The keywords of an icon table, sorted by character order.
pub fn sorted_keywords(icons: &Vec<(String, String)>) -> (r: Vec<String>)
    ensures
        views(r@) == keywords(icons@).sort_by(text_order()),
{
    let mut keys: Vec<String> = Vec::new();
    let mut i: usize = 0;
    while i < icons.len()
        invariant
            i <= icons@.len(),
            views(keys@) == keywords(icons@.take(i as int)),
        decreases icons.len() - i,
    {
        let ghost before = keys@;
        let k = icons[i].0.clone();
        keys.push(k);
        proof {
            assert(k@ == icons@[i as int].0@);
            assert(keys@ == before.push(k));
            assert(icons@.take(i as int + 1) =~= icons@.take(i as int).push(icons@[i as int]));
            assert(views(keys@) =~= views(before).push(k@));
            assert(keywords(icons@.take(i as int + 1)) =~= keywords(icons@.take(i as int)).push(icons@[i as int].0@));
        }
        i = i + 1;
    }
    proof {
        assert(icons@.take(icons@.len() as int) =~= icons@);
    }
    sort_texts(&mut keys);
    keys
}

/// The icons shown for statuses, by keyword (in lowercase).
#[derive(Debug, Clone)]
pub struct StatusIconConfig {
    /// (keyword, icon), each keyword at most once
    pub icons: Vec<(String, String)>,
    /// Icon for a status that matches no keyword
    pub default_icon: String,
}

/// The default status keywords and their icons.
pub open spec fn default_status_icons() -> Seq<(Seq<char>, Seq<char>)> {
    seq![
        ("completed"@, "[x]"@),
        ("done"@, "[x]"@),
        ("rejected"@, "[-]"@),
        ("closed"@, "[-]"@),
        ("draft"@, "[ ]"@),
        ("review"@, "[?]"@),
        ("approved"@, "[+]"@),
        ("ready"@, "[+]"@),
        ("progress"@, "[~]"@),
        ("implement"@, "[~]"@),
        ("verified"@, "[x]"@),
        ("backlog"@, "[.]"@),
        ("open"@, "[!]"@),
        ("confirmed"@, "[!]"@),
        ("fixed"@, "[x]"@),
    ]
}

/// The views of an icon table.
pub open spec fn icon_views(v: Seq<(String, String)>) -> Seq<(Seq<char>, Seq<char>)> {
    v.map_values(|e: (String, String)| (e.0@, e.1@))
}

impl Default for StatusIconConfig {
    /// ASCII markers for the usual statuses, `[*]` for the others.
    fn default() -> (r: Self)
        ensures
            icon_views(r.icons@) == default_status_icons(),
            keys_distinct(icon_views(r.icons@)),
            r.default_icon@ == "[*]"@,
    {
        let mut v: Vec<(String, String)> = Vec::new();
        v.push(icon_entry("completed", "[x]"));
        v.push(icon_entry("done", "[x]"));
        v.push(icon_entry("rejected", "[-]"));
        v.push(icon_entry("closed", "[-]"));
        v.push(icon_entry("draft", "[ ]"));
        v.push(icon_entry("review", "[?]"));
        v.push(icon_entry("approved", "[+]"));
        v.push(icon_entry("ready", "[+]"));
        v.push(icon_entry("progress", "[~]"));
        v.push(icon_entry("implement", "[~]"));
        v.push(icon_entry("verified", "[x]"));
        v.push(icon_entry("backlog", "[.]"));
        v.push(icon_entry("open", "[!]"));
        v.push(icon_entry("confirmed", "[!]"));
        v.push(icon_entry("fixed", "[x]"));
        proof {
            assert(icon_views(v@) =~= default_status_icons());
            reveal_strlit("completed");
            reveal_strlit("done");
            reveal_strlit("rejected");
            reveal_strlit("closed");
            reveal_strlit("draft");
            reveal_strlit("review");
            reveal_strlit("approved");
            reveal_strlit("ready");
            reveal_strlit("progress");
            reveal_strlit("implement");
            reveal_strlit("verified");
            reveal_strlit("backlog");
            reveal_strlit("open");
            reveal_strlit("confirmed");
            reveal_strlit("fixed");
            let d = default_status_icons();
            assert forall|i: int, j: int| 0 <= i < j < d.len() implies (#[trigger] d[i]).0 != (#[trigger] d[j]).0 by {
                assert(d[i].0[0] != d[j].0[0] || d[i].0.len() != d[j].0.len() || d[i].0[2] != d[j].0[2]);
            }
        }
        StatusIconConfig { icons: v, default_icon: owned("[*]") }
    }
}

impl StatusIconConfig {
    /// Adds the icon typed for a status keyword: nothing when the keyword is
    /// empty; else the keyword in lowercase gets the icon (`[*]` when none
    /// was typed). Returns whether the keyword was taken.
    pub fn add_status_icon(&mut self, keyword: &str, icon: &str) -> (r: bool)
        ensures
            r == (keyword@.len() > 0),
            !r ==> *final(self) == *old(self),
            r ==> icon_views(final(self).icons@) == icons_set(
                icon_views(old(self).icons@),
                lowercase(keyword@),
                if icon@.len() == 0 {
                    "[*]"@
                } else {
                    icon@
                },
            ),
            final(self).default_icon == old(self).default_icon,
            keys_distinct(icon_views(old(self).icons@)) ==> keys_distinct(icon_views(final(self).icons@)),
    {
        if keyword.unicode_len() == 0 {
            return false;
        }
        let k = to_lower(keyword);
        let i = if icon.unicode_len() == 0 {
            owned("[*]")
        } else {
            owned(icon)
        };
        set_icon_entry(&mut self.icons, k, i);
        true
    }

    /// The icon for a status: by its exact keyword in lowercase, else by a
    /// keyword it contains, else the default icon.
    pub fn get_icon(&self, status: &str) -> (r: &str)
        ensures
            icon_for(self.icons@, self.default_icon@, status@, r@),
    {
        icon_lookup(&self.icons, &self.default_icon, status)
    }
}

/// The icons shown for priorities, by keyword (in lowercase).
#[derive(Debug, Clone)]
pub struct PriorityIconConfig {
    /// (keyword, icon), each keyword at most once
    pub icons: Vec<(String, String)>,
    /// Icon for a priority that matches no keyword
    pub default_icon: String,
}

/// The default priority keywords and their icons.
pub open spec fn default_priority_icons() -> Seq<(Seq<char>, Seq<char>)> {
    seq![("high"@, "!!!"@), ("critical"@, "!!!"@), ("medium"@, "!!"@), ("low"@, "!"@), ("trivial"@, "."@)]
}

impl Default for PriorityIconConfig {
    /// Exclamation marks by urgency, nothing for the others.
    fn default() -> (r: Self)
        ensures
            icon_views(r.icons@) == default_priority_icons(),
            keys_distinct(icon_views(r.icons@)),
            r.default_icon@ == ""@,
    {
        let mut v: Vec<(String, String)> = Vec::new();
        v.push(icon_entry("high", "!!!"));
        v.push(icon_entry("critical", "!!!"));
        v.push(icon_entry("medium", "!!"));
        v.push(icon_entry("low", "!"));
        v.push(icon_entry("trivial", "."));
        proof {
            assert(icon_views(v@) =~= default_priority_icons());
            reveal_strlit("high");
            reveal_strlit("critical");
            reveal_strlit("medium");
            reveal_strlit("low");
            reveal_strlit("trivial");
            let d = default_priority_icons();
            assert forall|i: int, j: int| 0 <= i < j < d.len() implies (#[trigger] d[i]).0 != (#[trigger] d[j]).0 by {
                assert(d[i].0[0] != d[j].0[0] || d[i].0.len() != d[j].0.len());
            }
        }
        PriorityIconConfig { icons: v, default_icon: owned("") }
    }
}

impl PriorityIconConfig {
    /// The icon for a priority: by its exact keyword in lowercase, else by a
    /// keyword it contains, else the default icon.
    pub fn get_icon(&self, priority: &str) -> (r: &str)
        ensures
            icon_for(self.icons@, self.default_icon@, priority@, r@),
    {
        icon_lookup(&self.icons, &self.default_icon, priority)
    }
}

// ---------------------------------------------------------------------------
// Search, perspectives and view presets
// ---------------------------------------------------------------------------

/// The window title for a project with name `name` and title `title`:
/// `name - title`, or whichever of the two is not empty, or
/// `Requirements Manager` when both are.
pub open spec fn window_title_text(name: Seq<char>, title: Seq<char>) -> Seq<char> {
    if name.len() == 0 && title.len() == 0 {
        "Requirements Manager"@
    } else if name.len() == 0 {
        title
    } else if title.len() == 0 {
        name
    } else {
        name + " - "@ + title
    }
}

/// The window title for a project with name `name` and title `title`.
pub fn window_title(name: &str, title: &str) -> (r: String)
    ensures
        r@ == window_title_text(name@, title@),
{
    let no_name = name.unicode_len() == 0;
    let no_title = title.unicode_len() == 0;
    if no_name && no_title {
        owned("Requirements Manager")
    } else if no_name {
        owned(title)
    } else if no_title {
        owned(name)
    } else {
        let mut r = owned(name);
        r.append(" - ");
        r.append(title);
        r
    }
}

/// The heading level of titles in the interface by default (H3, within
/// the levels 1 to 6).
pub fn default_ui_heading_level() -> (r: u8)
    ensures
        r == 3,
{
    3
}

/// `true`, the default of flags that are on unless set.
pub fn default_true() -> (r: bool)
    ensures
        r,
{
    true
}

/// The name shown for a user: the handle if set, else the name, else
/// `Unknown User`.
pub fn display_name(handle: &str, name: &str) -> (r: String)
    ensures
        r@ == (if handle@.len() > 0 {
            handle@
        } else if name@.len() > 0 {
            name@
        } else {
            "Unknown User"@
        }),
{
    if handle.unicode_len() > 0 {
        owned(handle)
    } else if name.unicode_len() > 0 {
        owned(name)
    } else {
        owned("Unknown User")
    }
}

/// Which fields a text search looks at.
#[derive(Debug, Clone, Copy, PartialEq, Eq, Structural)]
pub struct SearchScope {
    /// The title
    pub title: bool,
    /// The description
    pub description: bool,
    /// The comments
    pub comments: bool,
    /// The readable identifier
    pub spec_id: bool,
}

impl Default for SearchScope {
    /// Nothing selected.
    fn default() -> (r: Self)
        ensures
            r == (SearchScope { title: false, description: false, comments: false, spec_id: false }),
    {
        SearchScope { title: false, description: false, comments: false, spec_id: false }
    }
}

impl SearchScope {
    /// Every field.
    pub fn all() -> (r: Self)
        ensures
            r == (SearchScope { title: true, description: true, comments: true, spec_id: true }),
    {
        SearchScope { title: true, description: true, comments: true, spec_id: true }
    }

    /// Whether every field is searched.
    pub fn is_all(&self) -> (r: bool)
        ensures
            r == (self.title && self.description && self.comments && self.spec_id),
    {
        self.title && self.description && self.comments && self.spec_id
    }

    /// Whether no field is searched.
    pub fn is_none(&self) -> (r: bool)
        ensures
            r == (!self.title && !self.description && !self.comments && !self.spec_id),
    {
        !self.title && !self.description && !self.comments && !self.spec_id
    }
}

/// How the requirements list is organised.
#[derive(Debug, Clone, Copy, PartialEq, Eq, Structural)]
pub enum Perspective {
    /// A flat list
    Flat,
    /// A tree of parents and children (the default)
    ParentChild,
    /// A tree of verifications
    Verification,
    /// A tree of references
    References,
}

impl Default for Perspective {
    fn default() -> (p: Self)
        ensures
            p == Perspective::ParentChild,
    {
        Perspective::ParentChild
    }
}

/// The name shown for a perspective.
pub open spec fn perspective_label(p: Perspective) -> Seq<char> {
    match p {
        Perspective::Flat => "Flat List"@,
        Perspective::ParentChild => "Parent/Child"@,
        Perspective::Verification => "Verification"@,
        Perspective::References => "References"@,
    }
}

impl Perspective {
    /// The name shown for the perspective.
    pub fn label(&self) -> (r: &'static str)
        ensures
            r@ == perspective_label(*self),
    {
        match self {
            Perspective::Flat => "Flat List",
            Perspective::ParentChild => "Parent/Child",
            Perspective::Verification => "Verification",
            Perspective::References => "References",
        }
    }

    /// The relationship kinds from a node down to its children and back up,
    /// or none for the flat list.
    pub fn relationship_types(&self) -> (r: Option<(RelationshipType, RelationshipType)>)
        ensures
            match *self {
                Perspective::Flat => r is None,
                Perspective::ParentChild => r == Some((RelationshipType::Parent, RelationshipType::Child)),
                Perspective::Verification => r == Some((RelationshipType::Verifies, RelationshipType::VerifiedBy)),
                Perspective::References => r == Some((RelationshipType::References, RelationshipType::References)),
            },
    {
        match self {
            Perspective::Flat => None,
            Perspective::ParentChild => Some((RelationshipType::Parent, RelationshipType::Child)),
            Perspective::Verification => Some((RelationshipType::Verifies, RelationshipType::VerifiedBy)),
            Perspective::References => Some((RelationshipType::References, RelationshipType::References)),
        }
    }
}

/// The direction in which a relationship tree is shown.
#[derive(Debug, Clone, Copy, PartialEq, Eq, Structural)]
pub enum PerspectiveDirection {
    /// From parents or sources down (the default)
    TopDown,
    /// From children or targets up
    BottomUp,
}

impl Default for PerspectiveDirection {
    fn default() -> (d: Self)
        ensures
            d == PerspectiveDirection::TopDown,
    {
        PerspectiveDirection::TopDown
    }
}

impl PerspectiveDirection {
    /// The name shown for the direction.
    pub fn label(&self) -> (r: &'static str)
        ensures
            r@ == (match *self {
                PerspectiveDirection::TopDown => "Top-down"@,
                PerspectiveDirection::BottomUp => "Bottom-up"@,
            }),
    {
        match self {
            PerspectiveDirection::TopDown => "Top-down",
            PerspectiveDirection::BottomUp => "Bottom-up",
        }
    }
}

/// A saved combination of perspective, direction and filters.
#[derive(Debug, Clone)]
pub struct ViewPreset {
    /// Name of the preset
    pub name: String,
    /// Perspective
    pub perspective: Perspective,
    /// Direction of tree views
    pub direction: PerspectiveDirection,
    /// Root filter by requirement type keys (empty: all)
    pub filter_types: Vec<String>,
    /// Root filter by features (empty: all)
    pub filter_features: Vec<String>,
    /// Root filter by identifier prefixes (empty: all)
    pub filter_prefixes: Vec<String>,
    /// Child filter by requirement type keys (empty: all)
    pub child_filter_types: Vec<String>,
    /// Child filter by features (empty: all)
    pub child_filter_features: Vec<String>,
    /// Child filter by identifier prefixes (empty: all)
    pub child_filter_prefixes: Vec<String>,
    /// Whether children are filtered as the roots are
    pub children_same_as_root: bool,
}

/// The distinct strings of `v`, each once, in the order they first occur.
fn distinct_texts(v: &Vec<String>) -> (r: Vec<String>)
    ensures
        views(r@).no_duplicates(),
        views(r@).to_set() == views(v@).to_set(),
{
    let mut r: Vec<String> = Vec::new();
    let mut i: usize = 0;
    proof {
        assert(views(r@).to_set() =~= views(v@).take(0).to_set());
    }
    while i < v.len()
        invariant
            i <= v@.len(),
            views(r@).no_duplicates(),
            views(r@).to_set() == views(v@).take(i as int).to_set(),
        decreases v.len() - i,
    {
        let ghost before = views(r@);
        proof {
            assert(views(v@).take(i as int + 1) =~= views(v@).take(i as int).push(views(v@)[i as int]));
            views(v@).take(i as int).lemma_push_to_set_commute(views(v@)[i as int]);
            assert(views(v@)[i as int] == v@[i as int]@);
        }
        if !vec_contains_str(&r, v[i].as_str()) {
            r.push(v[i].clone());
            proof {
                assert(views(r@) =~= before.push(v@[i as int]@));
                before.lemma_push_to_set_commute(v@[i as int]@);
                assert(!before.contains(v@[i as int]@)) by {
                    if before.contains(v@[i as int]@) {
                        let k = choose|k: int| 0 <= k < before.len() && before[k] == v@[i as int]@;
                        assert(r@[k]@ == v@[i as int]@);
                    }
                }
            }
        } else {
            proof {
                let k = choose|k: int| 0 <= k < r@.len() && (#[trigger] r@[k])@ == v@[i as int]@;
                assert(before[k] == v@[i as int]@);
                assert(before.to_set().insert(v@[i as int]@) =~= before.to_set());
            }
        }
        i = i + 1;
    }
    proof {
        assert(views(v@).take(v@.len() as int) =~= views(v@));
    }
    r
}

/// The requirement type whose key is `key`, if any.
pub open spec fn type_of_key(key: Seq<char>) -> Option<RequirementType> {
    if key == "Functional"@ {
        Some(RequirementType::Functional)
    } else if key == "NonFunctional"@ {
        Some(RequirementType::NonFunctional)
    } else if key == "System"@ {
        Some(RequirementType::System)
    } else if key == "User"@ {
        Some(RequirementType::User)
    } else if key == "ChangeRequest"@ {
        Some(RequirementType::ChangeRequest)
    } else {
        None
    }
}

fn parse_type_key(key: &str) -> (r: Option<RequirementType>)
    ensures
        r == type_of_key(key@),
{
    if str_eq(key, "Functional") {
        Some(RequirementType::Functional)
    } else if str_eq(key, "NonFunctional") {
        Some(RequirementType::NonFunctional)
    } else if str_eq(key, "System") {
        Some(RequirementType::System)
    } else if str_eq(key, "User") {
        Some(RequirementType::User)
    } else if str_eq(key, "ChangeRequest") {
        Some(RequirementType::ChangeRequest)
    } else {
        None
    }
}

/// Whether `t` is the type of one of the keys `keys`.
pub open spec fn names_type(keys: Seq<String>, t: RequirementType) -> bool {
    exists|i: int| 0 <= i < keys.len() && type_of_key((#[trigger] keys[i])@) == Some(t)
}

fn type_key_text(t: RequirementType) -> (r: String)
    ensures
        r@ == req_type_key(t),
{
    match t {
        RequirementType::Functional => owned("Functional"),
        RequirementType::NonFunctional => owned("NonFunctional"),
        RequirementType::System => owned("System"),
        RequirementType::User => owned("User"),
        RequirementType::ChangeRequest => owned("ChangeRequest"),
    }
}

impl ViewPreset {
    /// A preset of the given name, perspective, direction and filters; the
    /// type filters are kept as the types' keys.
    pub fn new(
        name: String,
        perspective: Perspective,
        direction: PerspectiveDirection,
        filter_types: &Vec<RequirementType>,
        filter_features: &Vec<String>,
        filter_prefixes: &Vec<String>,
        child_filter_types: &Vec<RequirementType>,
        child_filter_features: &Vec<String>,
        child_filter_prefixes: &Vec<String>,
        children_same_as_root: bool,
    ) -> (r: Self)
        ensures
            r.name == name,
            r.perspective == perspective,
            r.direction == direction,
            views(r.filter_types@) == filter_types@.map_values(|t: RequirementType| req_type_key(t)),
            r.filter_features@ == filter_features@,
            r.filter_prefixes@ == filter_prefixes@,
            views(r.child_filter_types@) == child_filter_types@.map_values(|t: RequirementType| req_type_key(t)),
            r.child_filter_features@ == child_filter_features@,
            r.child_filter_prefixes@ == child_filter_prefixes@,
            r.children_same_as_root == children_same_as_root,
    {
        ViewPreset {
            name,
            perspective,
            direction,
            filter_types: type_keys(filter_types),
            filter_features: crate::text::clone_strings(filter_features),
            filter_prefixes: crate::text::clone_strings(filter_prefixes),
            child_filter_types: type_keys(child_filter_types),
            child_filter_features: crate::text::clone_strings(child_filter_features),
            child_filter_prefixes: crate::text::clone_strings(child_filter_prefixes),
            children_same_as_root,
        }
    }

    /// The requirement types named by `types`, each once; unknown keys are
    /// skipped.
    pub fn parse_types(types: &Vec<String>) -> (r: Vec<RequirementType>)
        ensures
            r@.no_duplicates(),
            forall|t: RequirementType| r@.contains(t) <==> names_type(types@, t),
    {
        let mut r: Vec<RequirementType> = Vec::new();
        let mut i: usize = 0;
        while i < types.len()
            invariant
                i <= types@.len(),
                r@.no_duplicates(),
                forall|t: RequirementType| r@.contains(t) <==> names_type(types@.take(i as int), t),
            decreases types.len() - i,
        {
            let ghost before = r@;
            proof {
                assert forall|t: RequirementType| names_type(types@.take(i as int + 1), t) <==> (names_type(types@.take(i as int), t) || type_of_key(types@[i as int]@) == Some(t)) by {
                    if names_type(types@.take(i as int + 1), t) {
                        let k = choose|k: int| 0 <= k < i + 1 && type_of_key((#[trigger] types@.take(i as int + 1)[k])@) == Some(t);
                        if k < i {
                            assert(types@.take(i as int)[k] == types@[k]);
                        }
                    }
                    if names_type(types@.take(i as int), t) {
                        let k = choose|k: int| 0 <= k < i && type_of_key((#[trigger] types@.take(i as int)[k])@) == Some(t);
                        assert(types@.take(i as int + 1)[k] == types@[k]);
                    }
                    if type_of_key(types@[i as int]@) == Some(t) {
                        assert(types@.take(i as int + 1)[i as int] == types@[i as int]);
                    }
                }
            }
            match parse_type_key(types[i].as_str()) {
                Some(t) => {
                    let mut present = false;
                    let mut k: usize = 0;
                    while k < r.len()
                        invariant
                            k <= r@.len(),
                            present == exists|j: int| 0 <= j < k && r@[j] == t,
                        decreases r.len() - k,
                    {
                        if r[k] == t {
                            present = true;
                        }
                        k = k + 1;
                    }
                    if !present {
                        r.push(t);
                        proof {
                            assert(!before.contains(t));
                            assert forall|a: int, b: int| 0 <= a < r@.len() && 0 <= b < r@.len() && a != b implies r@[a] != r@[b] by {
                                if a < before.len() && b < before.len() {
                                    assert(r@[a] == before[a] && r@[b] == before[b]);
                                } else if a < before.len() {
                                    assert(r@[a] == before[a]);
                                } else {
                                    assert(r@[b] == before[b]);
                                }
                            }
                            assert forall|x: RequirementType| r@.contains(x) <==> (before.contains(x) || x == t) by {
                                if r@.contains(x) {
                                    let j = choose|j: int| 0 <= j < r@.len() && r@[j] == x;
                                    if j < before.len() {
                                        assert(before[j] == x);
                                    }
                                }
                                if before.contains(x) {
                                    let j = choose|j: int| 0 <= j < before.len() && before[j] == x;
                                    assert(r@[j] == x);
                                }
                                if x == t {
                                    assert(r@[before.len() as int] == t);
                                }
                            }
                            assert forall|x: RequirementType| r@.contains(x) <==> names_type(types@.take(i as int + 1), x) by {
                                assert(r@.contains(x) <==> (before.contains(x) || x == t));
                            }
                        }
                    } else {
                        proof {
                            let j = choose|j: int| 0 <= j < r@.len() && r@[j] == t;
                            assert(r@.contains(t));
                            assert forall|x: RequirementType| r@.contains(x) <==> names_type(types@.take(i as int + 1), x) by {
                                if x == t {
                                    assert(r@.contains(t));
                                }
                            }
                        }
                    }
                },
                None => {
                    proof {
                        assert forall|x: RequirementType| r@.contains(x) <==> names_type(types@.take(i as int + 1), x) by {
                            assert(type_of_key(types@[i as int]@) != Some(x));
                        }
                    }
                },
            }
            i = i + 1;
        }
        proof {
            assert(types@.take(types@.len() as int) =~= types@);
        }
        r
    }

    /// The root filter types, each once.
    pub fn get_filter_types(&self) -> (r: Vec<RequirementType>)
        ensures
            r@.no_duplicates(),
            forall|t: RequirementType| r@.contains(t) <==> names_type(self.filter_types@, t),
    {
        ViewPreset::parse_types(&self.filter_types)
    }

    /// The child filter types, each once.
    pub fn get_child_filter_types(&self) -> (r: Vec<RequirementType>)
        ensures
            r@.no_duplicates(),
            forall|t: RequirementType| r@.contains(t) <==> names_type(self.child_filter_types@, t),
    {
        ViewPreset::parse_types(&self.child_filter_types)
    }

    /// The root filter features, each once.
    pub fn get_filter_features(&self) -> (r: Vec<String>)
        ensures
            views(r@).no_duplicates(),
            views(r@).to_set() == views(self.filter_features@).to_set(),
    {
        distinct_texts(&self.filter_features)
    }

    /// The child filter features, each once.
    pub fn get_child_filter_features(&self) -> (r: Vec<String>)
        ensures
            views(r@).no_duplicates(),
            views(r@).to_set() == views(self.child_filter_features@).to_set(),
    {
        distinct_texts(&self.child_filter_features)
    }

    /// The root filter prefixes, each once.
    pub fn get_filter_prefixes(&self) -> (r: Vec<String>)
        ensures
            views(r@).no_duplicates(),
            views(r@).to_set() == views(self.filter_prefixes@).to_set(),
    {
        distinct_texts(&self.filter_prefixes)
    }

    /// The child filter prefixes, each once.
    pub fn get_child_filter_prefixes(&self) -> (r: Vec<String>)
        ensures
            views(r@).no_duplicates(),
            views(r@).to_set() == views(self.child_filter_prefixes@).to_set(),
    {
        distinct_texts(&self.child_filter_prefixes)
    }
}

fn type_keys(types: &Vec<RequirementType>) -> (r: Vec<String>)
    ensures
        views(r@) == types@.map_values(|t: RequirementType| req_type_key(t)),
{
    let mut r: Vec<String> = Vec::new();
    let mut i: usize = 0;
    while i < types.len()
        invariant
            i <= types@.len(),
            views(r@) == types@.take(i as int).map_values(|t: RequirementType| req_type_key(t)),
        decreases types.len() - i,
    {
        let ghost before = r@;
        let k = type_key_text(types[i]);
        r.push(k);
        proof {
            assert(views(r@) =~= views(before).push(k@));
            assert(types@.take(i as int + 1) =~= types@.take(i as int).push(types@[i as int]));
            assert(types@.take(i as int + 1).map_values(|t: RequirementType| req_type_key(t)) =~= types@.take(
                i as int,
            ).map_values(|t: RequirementType| req_type_key(t)).push(req_type_key(types@[i as int])));
        }
        i = i + 1;
    }
    proof {
        assert(types@.take(types@.len() as int) =~= types@);
    }
    r
}


// ---------------------------------------------------------------------------
// Cycling through themes
// ---------------------------------------------------------------------------

/// The built-in themes, in the order they are cycled through.
#[derive(Debug, Clone, Copy, PartialEq, Eq, Structural)]
pub enum BuiltInTheme {
    /// Dark (the default)
    Dark,
    /// Light
    Light,
    /// High-contrast dark
    HighContrastDark,
    /// Solarized dark
    SolarizedDark,
    /// Nord
    Nord,
}

/// The theme in use as cycling sees it: a built-in one, or a custom one by
/// name.
#[derive(Debug, Clone)]
pub enum ThemeName {
    /// A built-in theme
    BuiltIn(BuiltInTheme),
    /// A custom theme, by name
    Custom(String),
}

/// The theme to switch to: a built-in one, or the custom theme at a
/// position of the custom theme list.
#[derive(Debug, Clone, Copy, PartialEq, Eq, Structural)]
pub enum ThemePick {
    /// A built-in theme
    BuiltIn(BuiltInTheme),
    /// The custom theme at this position
    Custom(usize),
}

/// The built-in theme after `t` in the cycle (Nord wraps to Dark).
pub open spec fn builtin_successor(t: BuiltInTheme) -> BuiltInTheme {
    match t {
        BuiltInTheme::Dark => BuiltInTheme::Light,
        BuiltInTheme::Light => BuiltInTheme::HighContrastDark,
        BuiltInTheme::HighContrastDark => BuiltInTheme::SolarizedDark,
        BuiltInTheme::SolarizedDark => BuiltInTheme::Nord,
        BuiltInTheme::Nord => BuiltInTheme::Dark,
    }
}

/// The label of a built-in theme.
pub open spec fn builtin_label(t: BuiltInTheme) -> Seq<char> {
    match t {
        BuiltInTheme::Dark => "Dark"@,
        BuiltInTheme::Light => "Light"@,
        BuiltInTheme::HighContrastDark => "High Contrast Dark"@,
        BuiltInTheme::SolarizedDark => "Solarized Dark"@,
        BuiltInTheme::Nord => "Nord"@,
    }
}

/// Whether `i` is the first position in `names` holding `n`.
pub open spec fn first_name_at(names: Seq<String>, n: Seq<char>, i: int) -> bool {
    0 <= i < names.len() && names[i]@ == n && forall|j: int| 0 <= j < i ==> (#[trigger] names[j])@ != n
}

/// The theme after `current` when cycling through the built-in themes and
/// then the custom themes named `names`: the next built-in theme; after the
/// last one the first custom theme (Dark when there is none); after a custom
/// theme the next one, and Dark after the last or for a name not in the
/// list.
pub open spec fn theme_after(current: ThemeName, names: Seq<String>) -> ThemePick {
    match current {
        ThemeName::BuiltIn(t) => if t != BuiltInTheme::Nord {
            ThemePick::BuiltIn(builtin_successor(t))
        } else if names.len() > 0 {
            ThemePick::Custom(0)
        } else {
            ThemePick::BuiltIn(BuiltInTheme::Dark)
        },
        ThemeName::Custom(n) => if exists|i: int| first_name_at(names, n@, i) {
            let i = choose|i: int| first_name_at(names, n@, i);
            if i + 1 < names.len() {
                ThemePick::Custom((i + 1) as usize)
            } else {
                ThemePick::BuiltIn(BuiltInTheme::Dark)
            }
        } else {
            ThemePick::BuiltIn(BuiltInTheme::Dark)
        },
    }
}

impl BuiltInTheme {
    /// The built-in theme after this one (Nord wraps to Dark).
    pub fn next(&self) -> (r: BuiltInTheme)
        ensures
            r == builtin_successor(*self),
    {
        match self {
            BuiltInTheme::Dark => BuiltInTheme::Light,
            BuiltInTheme::Light => BuiltInTheme::HighContrastDark,
            BuiltInTheme::HighContrastDark => BuiltInTheme::SolarizedDark,
            BuiltInTheme::SolarizedDark => BuiltInTheme::Nord,
            BuiltInTheme::Nord => BuiltInTheme::Dark,
        }
    }
}

impl ThemeName {
    /// The theme that follows this one among the built-in themes: a custom
    /// theme is followed by Dark.
    pub fn next(&self) -> (r: BuiltInTheme)
        ensures
            r == match *self {
                ThemeName::BuiltIn(t) => builtin_successor(t),
                ThemeName::Custom(_) => BuiltInTheme::Dark,
            },
    {
        match self {
            ThemeName::BuiltIn(t) => t.next(),
            ThemeName::Custom(_) => BuiltInTheme::Dark,
        }
    }

    /// The label of the theme: a built-in theme's name, or `Custom: ` and
    /// the custom theme's name.
    pub fn label(&self) -> (r: String)
        ensures
            r@ == match *self {
                ThemeName::BuiltIn(t) => builtin_label(t),
                ThemeName::Custom(n) => "Custom: "@ + n@,
            },
    {
        match self {
            ThemeName::BuiltIn(t) => match t {
                BuiltInTheme::Dark => owned("Dark"),
                BuiltInTheme::Light => owned("Light"),
                BuiltInTheme::HighContrastDark => owned("High Contrast Dark"),
                BuiltInTheme::SolarizedDark => owned("Solarized Dark"),
                BuiltInTheme::Nord => owned("Nord"),
            },
            ThemeName::Custom(n) => {
                let mut r = owned("Custom: ");
                r.append(n.as_str());
                r
            },
        }
    }

    /// The theme to switch to from this one, given the names of the custom
    /// themes in order.
    pub fn cycle_theme(&self, custom_names: &Vec<String>) -> (r: ThemePick)
        ensures
            r == theme_after(*self, custom_names@),
    {
        match self {
            ThemeName::BuiltIn(t) => {
                if *t != BuiltInTheme::Nord {
                    ThemePick::BuiltIn(t.next())
                } else if custom_names.len() > 0 {
                    ThemePick::Custom(0)
                } else {
                    ThemePick::BuiltIn(BuiltInTheme::Dark)
                }
            },
            ThemeName::Custom(n) => {
                let mut i: usize = 0;
                while i < custom_names.len() && !str_eq(custom_names[i].as_str(), n.as_str())
                    invariant
                        i <= custom_names@.len(),
                        forall|j: int| 0 <= j < i ==> (#[trigger] custom_names@[j])@ != n@,
                    decreases custom_names.len() - i,
                {
                    i = i + 1;
                }
                if i == custom_names.len() {
                    return ThemePick::BuiltIn(BuiltInTheme::Dark);
                }
                proof {
                    assert(first_name_at(custom_names@, n@, i as int));
                    let c = choose|c: int| first_name_at(custom_names@, n@, c);
                    assert(c == i) by {
                        if c < i {
                            assert(custom_names@[c]@ != n@);
                        } else if (i as int) < c {
                            assert(custom_names@[i as int]@ != n@);
                        }
                    }
                }
                if i + 1 < custom_names.len() {
                    ThemePick::Custom(i + 1)
                } else {
                    ThemePick::BuiltIn(BuiltInTheme::Dark)
                }
            },
        }
    }
}


// ---------------------------------------------------------------------------
// Which key bindings apply
// ---------------------------------------------------------------------------

/// The views of the main panel.
#[derive(Debug, Clone, Copy, PartialEq, Eq, Structural)]
pub enum MainView {
    /// The requirements list
    List,
    /// A requirement's details
    Detail,
    /// The form adding a requirement
    Add,
    /// The form editing a requirement
    Edit,
}

/// The key context of the main window: the form context while text is
/// typed, a form is shown or the settings dialog is open; otherwise the
/// list or the detail view.
pub open spec fn key_context_of(view: MainView, text_input_focused: bool, in_settings: bool) -> KeyContext {
    if text_input_focused || view == MainView::Add || view == MainView::Edit || in_settings {
        KeyContext::Form
    } else if view == MainView::List {
        KeyContext::RequirementsList
    } else {
        KeyContext::DetailView
    }
}

/// The key context of the main window.
pub fn key_context_for(view: MainView, text_input_focused: bool, in_settings: bool) -> (r: KeyContext)
    ensures
        r == key_context_of(view, text_input_focused, in_settings),
{
    let in_form_view = match view {
        MainView::Add | MainView::Edit => true,
        _ => false,
    };
    if text_input_focused || in_form_view || in_settings {
        KeyContext::Form
    } else {
        match view {
            MainView::List => KeyContext::RequirementsList,
            MainView::Detail => KeyContext::DetailView,
            MainView::Add | MainView::Edit => KeyContext::Form,
        }
    }
}

} // verus!
