//! Debug toolkit toggles (F3 / backquote chords) and asset classification.
use vstd::prelude::*;
use vstd::string::StrSliceExecFns;
use crate::platform::input::{InputState, InputSnapshot, KeyCode};
use crate::text::{lemma_text_lt_irreflexive, lemma_text_lt_transitive, text_eq, text_less, text_lt};

verus! {

/// Which debug overlay pane is shown.
#[derive(Debug, Clone, Copy, PartialEq, Eq, Structural)]
pub enum ActiveOverlayPane {
    FpsGraph,
    SecondaryCamera,
    EntityBreakdown,
    SystemStats,
    Help,
    Culling,
    Timings,
}

/// Whether the debug toolkit is on and which pane it shows.
#[derive(Debug, Clone, Copy, PartialEq, Eq, Structural)]
pub struct PerfToolkitToggles {
    pub enabled: bool,
    pub active_overlay: Option<ActiveOverlayPane>,
}

/// Selecting the pane already shown hides it; selecting another shows it.
pub open spec fn toggled(shown: Option<ActiveOverlayPane>, pane: ActiveOverlayPane) -> Option<ActiveOverlayPane> {
    if shown == Some(pane) { None } else { Some(pane) }
}

/// Toggles `pane` when `pressed`.
pub open spec fn toggled_if(shown: Option<ActiveOverlayPane>, pressed: bool, pane: ActiveOverlayPane) -> Option<ActiveOverlayPane> {
    if pressed { toggled(shown, pane) } else { shown }
}

/// The pane chords, applied in order: G graph, W secondary camera, E entity
/// breakdown, S system stats, H help, C culling, L timings.
pub open spec fn chord_panes(shown: Option<ActiveOverlayPane>, s: InputSnapshot) -> Option<ActiveOverlayPane> {
    let p = |k: KeyCode| s.key_held(k) && !s.key_was_held(k);
    let o1 = toggled_if(shown, p(KeyCode::G), ActiveOverlayPane::FpsGraph);
    let o2 = toggled_if(o1, p(KeyCode::W), ActiveOverlayPane::SecondaryCamera);
    let o3 = toggled_if(o2, p(KeyCode::E), ActiveOverlayPane::EntityBreakdown);
    let o4 = toggled_if(o3, p(KeyCode::S), ActiveOverlayPane::SystemStats);
    let o5 = toggled_if(o4, p(KeyCode::H), ActiveOverlayPane::Help);
    let o6 = toggled_if(o5, p(KeyCode::C), ActiveOverlayPane::Culling);
    toggled_if(o6, p(KeyCode::L), ActiveOverlayPane::Timings)
}

/// A press of F3 or the backquote key switches the toolkit on or off.
pub open spec fn toolkit_switch_pressed(s: InputSnapshot) -> bool {
    (s.key_held(KeyCode::F3) && !s.key_was_held(KeyCode::F3))
        || (s.key_held(KeyCode::Grave) && !s.key_was_held(KeyCode::Grave))
}

/// F3 or the backquote key held: the chord modifier.
pub open spec fn chord_modifier_held(s: InputSnapshot) -> bool {
    s.key_held(KeyCode::F3) || s.key_held(KeyCode::Grave)
}

/// The toggles after one frame of input `s`. Switching the toolkit off hides
/// the pane; while the toolkit is on and the modifier is held, each chord key
/// pressed this frame toggles its pane.
pub open spec fn toggles_after(t: PerfToolkitToggles, s: InputSnapshot) -> PerfToolkitToggles {
    let enabled = if toolkit_switch_pressed(s) { !t.enabled } else { t.enabled };
    let shown = if toolkit_switch_pressed(s) && !enabled { None } else { t.active_overlay };
    PerfToolkitToggles {
        enabled,
        active_overlay: if enabled && chord_modifier_held(s) { chord_panes(shown, s) } else { shown },
    }
}

impl Default for PerfToolkitToggles {
    /// Off, no pane.
    fn default() -> (t: Self)
        ensures
            !t.enabled,
            t.active_overlay is None,
    {
        PerfToolkitToggles { enabled: false, active_overlay: None }
    }
}

impl PerfToolkitToggles {
    /// Applies this frame's key presses to the toggles.
    pub fn update_toggle_state(&mut self, input: &InputState)
        ensures
            *final(self) == toggles_after(*old(self), input@),
    {
        if input.key_just_pressed(KeyCode::F3) || input.key_just_pressed(KeyCode::Grave) {
            self.enabled = !self.enabled;
            if !self.enabled {
                self.active_overlay = None;
            }
        }

        let debug_modifier_held = input.key_held(KeyCode::F3) || input.key_held(KeyCode::Grave);
        if !self.enabled || !debug_modifier_held {
            return;
        }

        if input.key_just_pressed(KeyCode::G) {
            self.toggle_overlay(ActiveOverlayPane::FpsGraph);
        }
        if input.key_just_pressed(KeyCode::W) {
            self.toggle_overlay(ActiveOverlayPane::SecondaryCamera);
        }
        if input.key_just_pressed(KeyCode::E) {
            self.toggle_overlay(ActiveOverlayPane::EntityBreakdown);
        }
        if input.key_just_pressed(KeyCode::S) {
            self.toggle_overlay(ActiveOverlayPane::SystemStats);
        }
        if input.key_just_pressed(KeyCode::H) {
            self.toggle_overlay(ActiveOverlayPane::Help);
        }
        if input.key_just_pressed(KeyCode::C) {
            self.toggle_overlay(ActiveOverlayPane::Culling);
        }
        if input.key_just_pressed(KeyCode::L) {
            self.toggle_overlay(ActiveOverlayPane::Timings);
        }
    }

    fn toggle_overlay(&mut self, pane: ActiveOverlayPane)
        ensures
            final(self).enabled == old(self).enabled,
            final(self).active_overlay == toggled(old(self).active_overlay, pane),
    {
        let same = match self.active_overlay {
            Some(p) => p == pane,
            None => false,
        };
        if same {
            self.active_overlay = None;
        } else {
            self.active_overlay = Some(pane);
        }
    }
}

/// The letter keys that select a pane while the chord modifier is held.
pub open spec fn chord_keys() -> Seq<KeyCode> {
    seq![KeyCode::G, KeyCode::W, KeyCode::E, KeyCode::S, KeyCode::H, KeyCode::C, KeyCode::L]
}

/// Key `k` went down this frame.
pub open spec fn pressed_now(s: InputSnapshot, k: KeyCode) -> bool {
    s.key_held(k) && !s.key_was_held(k)
}

/// `k` is the only chord key that went down this frame.
pub open spec fn only_chord_key(s: InputSnapshot, k: KeyCode) -> bool {
    &&& pressed_now(s, k)
    &&& forall|j: int| 0 <= j < chord_keys().len() && chord_keys()[j] != k ==> !pressed_now(s, #[trigger] chord_keys()[j])
}

/// F3 or the backquote key going down switches the toolkit on or off; with
/// neither going down it stays as it was. Switching it off hides the pane,
/// and holding either key is the chord modifier.
pub proof fn law_f3_and_backquote_switch_the_toolkit(t: PerfToolkitToggles, s: InputSnapshot)
    ensures
        (pressed_now(s, KeyCode::F3) || pressed_now(s, KeyCode::Grave)) ==> toggles_after(t, s).enabled == !t.enabled,
        !(pressed_now(s, KeyCode::F3) || pressed_now(s, KeyCode::Grave)) ==> toggles_after(t, s).enabled == t.enabled,
        !toggles_after(t, s).enabled ==> toggles_after(t, s).active_overlay is None || toggles_after(t, s).active_overlay == t.active_overlay,
        t.enabled && (pressed_now(s, KeyCode::F3) || pressed_now(s, KeyCode::Grave)) ==> toggles_after(t, s).active_overlay is None,
        chord_modifier_held(s) == (s.key_held(KeyCode::F3) || s.key_held(KeyCode::Grave)),
{
}

/// With the toolkit on and the modifier (F3 or backquote) held, each chord
/// key pressed alone toggles its own pane: G the FPS graph, W the secondary
/// camera, E the entity breakdown, S the system stats, H help, C culling,
/// L frame timings. With no chord key pressed the shown pane stays.
pub proof fn law_each_chord_selects_its_pane(t: PerfToolkitToggles, s: InputSnapshot)
    requires
        t.enabled,
        !toolkit_switch_pressed(s),
        chord_modifier_held(s),
    ensures
        only_chord_key(s, KeyCode::G) ==> toggles_after(t, s).active_overlay == toggled(t.active_overlay, ActiveOverlayPane::FpsGraph),
        only_chord_key(s, KeyCode::W) ==> toggles_after(t, s).active_overlay == toggled(t.active_overlay, ActiveOverlayPane::SecondaryCamera),
        only_chord_key(s, KeyCode::E) ==> toggles_after(t, s).active_overlay == toggled(t.active_overlay, ActiveOverlayPane::EntityBreakdown),
        only_chord_key(s, KeyCode::S) ==> toggles_after(t, s).active_overlay == toggled(t.active_overlay, ActiveOverlayPane::SystemStats),
        only_chord_key(s, KeyCode::H) ==> toggles_after(t, s).active_overlay == toggled(t.active_overlay, ActiveOverlayPane::Help),
        only_chord_key(s, KeyCode::C) ==> toggles_after(t, s).active_overlay == toggled(t.active_overlay, ActiveOverlayPane::Culling),
        only_chord_key(s, KeyCode::L) ==> toggles_after(t, s).active_overlay == toggled(t.active_overlay, ActiveOverlayPane::Timings),
        (forall|j: int| 0 <= j < chord_keys().len() ==> !pressed_now(s, #[trigger] chord_keys()[j]))
            ==> toggles_after(t, s).active_overlay == t.active_overlay,
        toggles_after(t, s).enabled,
{
    let ks = chord_keys();
    assert(ks[0] == KeyCode::G && ks[1] == KeyCode::W && ks[2] == KeyCode::E && ks[3] == KeyCode::S);
    assert(ks[4] == KeyCode::H && ks[5] == KeyCode::C && ks[6] == KeyCode::L);
    assert(pressed_now(s, ks[0]) == pressed_now(s, KeyCode::G));
    assert(pressed_now(s, ks[1]) == pressed_now(s, KeyCode::W));
    assert(pressed_now(s, ks[2]) == pressed_now(s, KeyCode::E));
    assert(pressed_now(s, ks[3]) == pressed_now(s, KeyCode::S));
    assert(pressed_now(s, ks[4]) == pressed_now(s, KeyCode::H));
    assert(pressed_now(s, ks[5]) == pressed_now(s, KeyCode::C));
    assert(pressed_now(s, ks[6]) == pressed_now(s, KeyCode::L));
}

/// Selecting a pane twice returns to what was shown before, when that was
/// nothing or the pane itself.
pub proof fn law_toggle_twice_restores(shown: Option<ActiveOverlayPane>, pane: ActiveOverlayPane)
    requires
        shown is None || shown == Some(pane),
    ensures
        toggled(toggled(shown, pane), pane) == shown,
{
}

/// No pane is shown while the toolkit is off: the toggles keep this from
/// frame to frame, whatever the input.
pub proof fn law_hidden_while_disabled(t: PerfToolkitToggles, s: InputSnapshot)
    requires
        !t.enabled ==> t.active_overlay is None,
    ensures
        !toggles_after(t, s).enabled ==> toggles_after(t, s).active_overlay is None,
{
}

// ---------------------------------------------------------------------------
// Asset classification
// ---------------------------------------------------------------------------

/// The part of `s` before its first underscore (all of `s` if it has none).
pub open spec fn before_underscore(s: Seq<char>) -> Seq<char>
    decreases s.len(),
{
    if s.len() == 0 || s[0] == '_' {
        Seq::empty()
    } else {
        seq![s[0]] + before_underscore(s.drop_first())
    }
}

/// ASCII upper-case letters map to lower case; every other character is kept.
pub open spec fn ascii_lower(c: char) -> char {
    if 'A' <= c && c <= 'Z' { ((c as u32) + 32) as char } else { c }
}

/// The class of an asset whose file stem is `stem`: the stem's first
/// underscore-separated word, in ASCII lower case.
pub open spec fn asset_class(stem: Seq<char>) -> Seq<char> {
    before_underscore(stem).map_values(|c: char| ascii_lower(c))
}

/// A path whose meaning is the same on every platform: no backslash, no `:`,
/// and not starting with two slashes (which some platforms read as a
/// network share).
pub open spec fn portable_path(p: Seq<char>) -> bool {
    &&& forall|i: int| 0 <= i < p.len() ==> p[i] != '\\' && p[i] != ':'
    &&& !(p.len() >= 2 && p[0] == '/' && p[1] == '/')
}

/// The characters of `p` after its last `sep` (all of `p` if it has none).
pub open spec fn trailing_piece(p: Seq<char>, sep: char) -> Seq<char>
    decreases p.len(),
{
    if p.len() == 0 || p.last() == sep {
        Seq::empty()
    } else {
        trailing_piece(p.drop_last(), sep).push(p.last())
    }
}

/// The trailing piece is a suffix of `p`, and the character before it, if
/// any, is the separator.
pub proof fn lemma_trailing_piece(p: Seq<char>, sep: char)
    ensures
        trailing_piece(p, sep).len() <= p.len(),
        trailing_piece(p, sep) == p.subrange(p.len() - trailing_piece(p, sep).len(), p.len() as int),
        trailing_piece(p, sep).len() < p.len() ==> p[p.len() - trailing_piece(p, sep).len() - 1] == sep,
        forall|i: int| 0 <= i < trailing_piece(p, sep).len() ==> trailing_piece(p, sep)[i] != sep,
    decreases p.len(),
{
    if p.len() > 0 && p.last() != sep {
        lemma_trailing_piece(p.drop_last(), sep);
        let t = trailing_piece(p.drop_last(), sep);
        assert(t.push(p.last()) =~= p.subrange(p.len() - t.len() - 1, p.len() as int));
    } else {
        assert(Seq::<char>::empty() =~= p.subrange(p.len() as int, p.len() as int));
    }
}

/// The final component of a `/`-separated path, as `Path::file_name`
/// documents it: empty and `.` components are skipped; there is none when
/// the path has no other component or its final component is `..`.
pub open spec fn file_name_of(p: Seq<char>) -> Option<Seq<char>>
    decreases p.len(),
{
    let piece = trailing_piece(p, '/');
    let k = p.len() - piece.len();
    if piece == seq!['.', '.'] {
        None
    } else if piece.len() == 0 || piece == seq!['.'] {
        if k <= 0 {
            None
        } else {
            proof {
                lemma_trailing_piece(p, '/');
            }
            file_name_of(p.subrange(0, k - 1))
        }
    } else {
        Some(piece)
    }
}

/// The stem of a file name, as `Path::file_stem` documents it: the whole
/// name when it has no `.` or its only `.` is the first character, else the
/// part before the last `.`.
pub open spec fn stem_of_name(name: Seq<char>) -> Seq<char> {
    let ext = trailing_piece(name, '.');
    if ext.len() >= name.len() || name.len() - ext.len() - 1 == 0 {
        name
    } else {
        name.subrange(0, name.len() - ext.len() - 1)
    }
}

/// `Path::file_stem` of a `/`-separated path.
pub open spec fn stem_of(p: Seq<char>) -> Option<Seq<char>> {
    match file_name_of(p) {
        Some(name) => Some(stem_of_name(name)),
        None => None,
    }
}

/// `std::path::Path::file_stem` of `path`, as text (the stem of a `&str`
/// path is always valid UTF-8, so `OsStr::to_str` keeps it). For portable
/// paths the result is the stem that std documents; for paths with a backslash
/// or `:`, whose reading depends on the platform, nothing is stated.
#[verifier::external_body]
fn path_file_stem<'a>(path: &'a str) -> (r: Option<&'a str>)
    ensures
        portable_path(path@) ==> match r {
            Some(s) => stem_of(path@) == Some(s@),
            None => stem_of(path@) is None,
        },
{
    match std::path::Path::new(path).file_stem() {
        Some(stem) => stem.to_str(),
        None => None,
    }
}

/// `str::to_ascii_lowercase`: each ASCII upper-case letter replaced by its
/// lower-case letter, every other character kept.
#[verifier::external_body]
fn ascii_lowercase(s: &str) -> (r: String)
    ensures
        r@ == s@.map_values(|c: char| ascii_lower(c)),
{
    s.to_ascii_lowercase()
}

/// The class of an asset with file stem `stem` (see [`asset_class`]).
pub fn classify_stem(stem: &str) -> (class: String)
    ensures
        class@ == asset_class(stem@),
{
    let n = stem.unicode_len();
    let mut i: usize = 0;
    while i < n && stem.get_char(i) != '_'
        invariant
            n == stem@.len(),
            i <= n,
            forall|j: int| 0 <= j < i ==> stem@[j] != '_',
        decreases n - i,
    {
        i = i + 1;
    }
    proof {
        lemma_before_underscore(stem@, i as int);
    }
    let word = stem.substring_char(0, i);
    ascii_lowercase(word)
}

proof fn lemma_before_underscore(s: Seq<char>, i: int)
    requires
        0 <= i <= s.len(),
        forall|j: int| 0 <= j < i ==> s[j] != '_',
        i == s.len() || s[i] == '_',
    ensures
        before_underscore(s) == s.subrange(0, i),
    decreases i,
{
    if i == 0 {
        assert(s.subrange(0, 0) =~= Seq::<char>::empty());
    } else {
        let t = s.drop_first();
        assert forall|j: int| 0 <= j < i - 1 implies t[j] != '_' by {
            assert(t[j] == s[j + 1]);
        }
        lemma_before_underscore(t, i - 1);
        assert(s.subrange(0, i) =~= seq![s[0]] + t.subrange(0, i - 1));
    }
}

/// The class of an asset path: that of its file stem, or of "unknown"
/// where it has none.
pub open spec fn class_of_path(p: Seq<char>) -> Seq<char> {
    match stem_of(p) {
        Some(s) => asset_class(s),
        None => asset_class("unknown"@),
    }
}

/// No class holds an underscore or an ASCII upper-case letter.
pub proof fn lemma_asset_class_shape(stem: Seq<char>)
    ensures
        forall|i: int| 0 <= i < asset_class(stem).len() ==>
            #[trigger] asset_class(stem)[i] != '_' && !('A' <= asset_class(stem)[i] && asset_class(stem)[i] <= 'Z'),
{
    lemma_no_underscore(stem);
    assert forall|i: int| 0 <= i < asset_class(stem).len() implies
        #[trigger] asset_class(stem)[i] != '_' && !('A' <= asset_class(stem)[i] && asset_class(stem)[i] <= 'Z') by {
        let c = before_underscore(stem)[i];
        assert(asset_class(stem)[i] == ascii_lower(c));
        if 'A' <= c && c <= 'Z' {
            assert((c as u32) + 32 >= 97 && (c as u32) + 32 <= 122);
        }
    }
}

proof fn lemma_no_underscore(s: Seq<char>)
    ensures
        forall|i: int| 0 <= i < before_underscore(s).len() ==> before_underscore(s)[i] != '_',
    decreases s.len(),
{
    if s.len() > 0 && s[0] != '_' {
        lemma_no_underscore(s.drop_first());
        let t = before_underscore(s.drop_first());
        assert forall|i: int| 0 <= i < before_underscore(s).len() implies before_underscore(s)[i] != '_' by {
            if i > 0 {
                assert(before_underscore(s)[i] == t[i - 1]);
            }
        }
    }
}

/// Classifies an asset by its path, for the overlay's breakdown of visible
/// assets: the class of the path's file stem, or of "unknown" where the path
/// has none.
pub fn classify_asset(asset_path: &str) -> (class: String)
    ensures
        exists|stem: Seq<char>| class@ == asset_class(stem),
        portable_path(asset_path@) ==> class@ == class_of_path(asset_path@),
        forall|i: int| 0 <= i < class@.len() ==> #[trigger] class@[i] != '_' && !('A' <= class@[i] && class@[i] <= 'Z'),
{
    let class = match path_file_stem(asset_path) {
        Some(stem) => classify_stem(stem),
        None => classify_stem("unknown"),
    };
    proof {
        let stem = choose|stem: Seq<char>| class@ == asset_class(stem);
        lemma_asset_class_shape(stem);
    }
    class
}

// ---------------------------------------------------------------------------
// Visible classes
// ---------------------------------------------------------------------------

/// How many of the texts `s` are `x`.
pub open spec fn occurrences(s: Seq<String>, x: Seq<char>) -> nat
    decreases s.len(),
{
    if s.len() == 0 {
        0
    } else {
        occurrences(s.drop_last(), x) + if s.last()@ == x { 1nat } else { 0nat }
    }
}

/// Breakdown order: more entities first; at equal counts, by name.
pub open spec fn ranks_before(a: (Seq<char>, usize), b: (Seq<char>, usize)) -> bool {
    a.1 > b.1 || (a.1 == b.1 && text_lt(a.0, b.0))
}

/// The view of a breakdown row.
pub open spec fn row(r: (String, usize)) -> (Seq<char>, usize) {
    (r.0@, r.1)
}

/// `names` and `counts` tally the texts `seen`: each distinct text once, with
/// how often it occurs; `slot[u]` is where `seen[u]` is tallied and
/// `first[j]` is a position at which `names[j]` was seen.
#[verifier::opaque]
spec fn tally(names: Seq<String>, counts: Seq<usize>, seen: Seq<String>, slot: Seq<int>, first: Seq<int>) -> bool {
    &&& names.len() == counts.len()
    &&& names.len() == first.len()
    &&& seen.len() == slot.len()
    &&& forall|i: int, j: int| 0 <= i < j < names.len() ==> names[i]@ != names[j]@
    &&& forall|j: int| 0 <= j < names.len() ==> #[trigger] counts[j] == occurrences(seen, names[j]@)
    &&& forall|u: int| 0 <= u < seen.len() ==> 0 <= #[trigger] slot[u] < names.len() && names[slot[u]]@ == seen[u]@
    &&& forall|j: int| 0 <= j < names.len() ==> 0 <= #[trigger] first[j] < seen.len() && seen[first[j]]@ == names[j]@
}

proof fn lemma_occurrences_push(s: Seq<String>, c: String, x: Seq<char>)
    ensures
        occurrences(s.push(c), x) == occurrences(s, x) + (if c@ == x { 1nat } else { 0nat }),
{
    assert(s.push(c).drop_last() =~= s);
}

proof fn lemma_occurrences_bound(s: Seq<String>, x: Seq<char>)
    ensures
        occurrences(s, x) <= s.len(),
    decreases s.len(),
{
    if s.len() > 0 {
        lemma_occurrences_bound(s.drop_last(), x);
    }
}

/// A text that does not occur has no occurrences.
proof fn lemma_no_occurrence(s: Seq<String>, x: Seq<char>)
    requires
        forall|u: int| 0 <= u < s.len() ==> s[u]@ != x,
    ensures
        occurrences(s, x) == 0,
    decreases s.len(),
{
    if s.len() > 0 {
        lemma_no_occurrence(s.drop_last(), x);
    }
}

proof fn lemma_tally_empty()
    ensures
        tally(Seq::empty(), Seq::empty(), Seq::empty(), Seq::empty(), Seq::empty()),
{
    reveal(tally);
}

proof fn lemma_tally_facts(names: Seq<String>, counts: Seq<usize>, seen: Seq<String>, slot: Seq<int>, first: Seq<int>)
    requires
        tally(names, counts, seen, slot, first),
    ensures
        names.len() == counts.len(),
        names.len() == first.len(),
        seen.len() == slot.len(),
        forall|i: int, j: int| 0 <= i < j < names.len() ==> names[i]@ != names[j]@,
        forall|j: int| 0 <= j < names.len() ==> #[trigger] counts[j] == occurrences(seen, names[j]@),
        forall|j: int| 0 <= j < names.len() ==> counts[j] <= seen.len(),
        forall|u: int| 0 <= u < seen.len() ==> 0 <= #[trigger] slot[u] < names.len() && names[slot[u]]@ == seen[u]@,
        forall|j: int| 0 <= j < names.len() ==> 0 <= #[trigger] first[j] < seen.len() && seen[first[j]]@ == names[j]@,
{
    reveal(tally);
    assert forall|j: int| 0 <= j < names.len() implies counts[j] <= seen.len() by {
        lemma_occurrences_bound(seen, names[j]@);
    }
}

/// Seeing a text that is already tallied adds one to its count.
proof fn lemma_tally_found(
    names: Seq<String>,
    counts: Seq<usize>,
    seen: Seq<String>,
    slot: Seq<int>,
    first: Seq<int>,
    c: String,
    j: int,
)
    requires
        tally(names, counts, seen, slot, first),
        0 <= j < names.len(),
        names[j]@ == c@,
        counts[j] < usize::MAX,
    ensures
        tally(names, counts.update(j, (counts[j] + 1) as usize), seen.push(c), slot.push(j), first),
{
    reveal(tally);
    let counts2 = counts.update(j, (counts[j] + 1) as usize);
    let seen2 = seen.push(c);
    let slot2 = slot.push(j);
    assert forall|k: int| 0 <= k < names.len() implies #[trigger] counts2[k] == occurrences(seen2, names[k]@) by {
        lemma_occurrences_push(seen, c, names[k]@);
        if k != j {
            assert(names[k]@ != names[j]@);
        }
    }
    assert forall|u: int| 0 <= u < seen2.len() implies 0 <= #[trigger] slot2[u] < names.len() && names[slot2[u]]@ == seen2[u]@ by {
        if u < seen.len() {
            assert(slot2[u] == slot[u] && seen2[u] == seen[u]);
        }
    }
    assert forall|k: int| 0 <= k < names.len() implies 0 <= #[trigger] first[k] < seen2.len() && seen2[first[k]]@ == names[k]@ by {
        assert(seen2[first[k]] == seen[first[k]]);
    }
}

/// Seeing a new text tallies it once.
proof fn lemma_tally_new(
    names: Seq<String>,
    counts: Seq<usize>,
    seen: Seq<String>,
    slot: Seq<int>,
    first: Seq<int>,
    c: String,
    c2: String,
)
    requires
        tally(names, counts, seen, slot, first),
        forall|k: int| 0 <= k < names.len() ==> names[k]@ != c@,
        c2@ == c@,
    ensures
        tally(names.push(c2), counts.push(1usize), seen.push(c), slot.push(names.len() as int), first.push(seen.len() as int)),
{
    reveal(tally);
    let names2 = names.push(c2);
    let counts2 = counts.push(1usize);
    let seen2 = seen.push(c);
    let slot2 = slot.push(names.len() as int);
    let first2 = first.push(seen.len() as int);
    assert forall|u: int| 0 <= u < seen.len() implies seen[u]@ != c@ by {
        assert(names[slot[u]]@ == seen[u]@);
    }
    lemma_no_occurrence(seen, c@);
    assert forall|k: int| 0 <= k < names2.len() implies #[trigger] counts2[k] == occurrences(seen2, names2[k]@) by {
        lemma_occurrences_push(seen, c, names2[k]@);
        if k < names.len() {
            assert(names2[k] == names[k]);
        }
    }
    assert forall|u: int| 0 <= u < seen2.len() implies 0 <= #[trigger] slot2[u] < names2.len() && names2[slot2[u]]@ == seen2[u]@ by {
        if u < seen.len() {
            assert(slot2[u] == slot[u] && seen2[u] == seen[u]);
            assert(names2[slot[u]] == names[slot[u]]);
        }
    }
    assert forall|k: int| 0 <= k < names2.len() implies 0 <= #[trigger] first2[k] < seen2.len() && seen2[first2[k]]@ == names2[k]@ by {
        if k < names.len() {
            assert(first2[k] == first[k] && names2[k] == names[k]);
            assert(seen2[first[k]] == seen[first[k]]);
        }
    }
    assert forall|a: int, b: int| 0 <= a < b < names2.len() implies names2[a]@ != names2[b]@ by {
        assert(names2[a] == names[a]);
        if b < names.len() {
            assert(names2[b] == names[b]);
        }
    }
}

/// A text that occurs somewhere has at least one occurrence.
proof fn lemma_occurrence_positive(s: Seq<String>, u: int)
    requires
        0 <= u < s.len(),
    ensures
        occurrences(s, s[u]@) >= 1,
    decreases s.len(),
{
    if u < s.len() - 1 {
        lemma_occurrence_positive(s.drop_last(), u);
        assert(s.drop_last()[u] == s[u]);
    }
}

/// The distinct classes of `classes`, in order of first appearance, with
/// how often each occurs; `slot[u]` is where `classes[u]` is tallied.
fn count_classes(classes: &Vec<String>) -> (r: (Vec<String>, Vec<usize>, Ghost<Seq<int>>))
    ensures
        r.0@.len() == r.1@.len(),
        forall|i: int, j: int| 0 <= i < j < r.0@.len() ==> r.0@[i]@ != r.0@[j]@,
        forall|j: int| 0 <= j < r.0@.len() ==> #[trigger] r.1@[j] == occurrences(classes@, r.0@[j]@),
        forall|j: int| 0 <= j < r.0@.len() ==> #[trigger] r.1@[j] >= 1,
        r.2@.len() == classes@.len(),
        forall|u: int| 0 <= u < classes@.len() ==> 0 <= #[trigger] r.2@[u] < r.0@.len() && r.0@[r.2@[u]]@ == classes@[u]@,
{
    let mut names: Vec<String> = Vec::new();
    let mut counts: Vec<usize> = Vec::new();
    let ghost mut slot: Seq<int> = Seq::empty();
    let ghost mut first: Seq<int> = Seq::empty();
    let mut t: usize = 0;
    proof {
        lemma_tally_empty();
        assert(classes@.take(0) =~= Seq::<String>::empty());
    }
    while t < classes.len()
        invariant
            t <= classes@.len(),
            tally(names@, counts@, classes@.take(t as int), slot, first),
        decreases classes.len() - t,
    {
        let c = &classes[t];
        let ghost seen = classes@.take(t as int);
        proof {
            lemma_tally_facts(names@, counts@, seen, slot, first);
            assert(classes@.take(t + 1) =~= seen.push(*c));
        }
        let mut j: usize = 0;
        while j < names.len() && !text_eq(names[j].as_str(), c.as_str())
            invariant
                j <= names@.len(),
                forall|k: int| 0 <= k < j ==> names@[k]@ != c@,
            decreases names.len() - j,
        {
            j = j + 1;
        }
        if j < names.len() {
            let n = counts[j];
            proof {
                lemma_tally_found(names@, counts@, seen, slot, first, *c, j as int);
                slot = slot.push(j as int);
            }
            counts.set(j, n + 1);
        } else {
            let c2 = c.clone();
            proof {
                lemma_tally_new(names@, counts@, seen, slot, first, *c, c2);
                slot = slot.push(names@.len() as int);
                first = first.push(seen.len() as int);
            }
            names.push(c2);
            counts.push(1);
        }
        t = t + 1;
    }
    proof {
        assert(classes@.take(classes@.len() as int) =~= classes@);
        lemma_tally_facts(names@, counts@, classes@, slot, first);
        assert forall|j: int| 0 <= j < names@.len() implies #[trigger] counts@[j] >= 1 by {
            lemma_occurrence_positive(classes@, first[j]);
        }
    }
    (names, counts, Ghost(slot))
}

/// If `a` does not rank before `b`, and `c` ranks before `b`, then `a` does
/// not rank before `c` either.
proof fn lemma_ranks_before_transitive(a: (Seq<char>, usize), b: (Seq<char>, usize), c: (Seq<char>, usize))
    requires
        ranks_before(a, b),
        ranks_before(b, c),
    ensures
        ranks_before(a, c),
{
    if a.1 == b.1 && b.1 == c.1 {
        lemma_text_lt_transitive(a.0, b.0, c.0);
    }
}

/// `rows` is in breakdown order and each row is entry `origin[i]` of the
/// tally.
#[verifier::opaque]
spec fn ordered_from(rows: Seq<(String, usize)>, origin: Seq<int>, names: Seq<String>, counts: Seq<usize>, done: int) -> bool {
    &&& rows.len() == origin.len()
    &&& forall|i: int| 0 <= i < rows.len() ==> 0 <= #[trigger] origin[i] < done
    &&& forall|i: int| 0 <= i < rows.len() ==> #[trigger] row(rows[i]) == (names[origin[i]]@, counts[origin[i]])
    &&& forall|i: int, l: int| 0 <= i < l < rows.len() ==> origin[i] != origin[l]
    &&& forall|m: int| 0 <= m < done ==> #[trigger] origin.contains(m)
    &&& forall|i: int, l: int| 0 <= i < l < rows.len() ==> !ranks_before(row(rows[l]), row(rows[i]))
}

proof fn lemma_ordered_insert(
    rows: Seq<(String, usize)>,
    origin: Seq<int>,
    names: Seq<String>,
    counts: Seq<usize>,
    done: int,
    p: int,
    e: (String, usize),
)
    requires
        ordered_from(rows, origin, names, counts, done),
        0 <= done < names.len(),
        names.len() == counts.len(),
        row(e) == (names[done]@, counts[done]),
        0 <= p <= rows.len(),
        forall|i: int| 0 <= i < p ==> !ranks_before(row(e), row(rows[i])),
        p < rows.len() ==> ranks_before(row(e), row(rows[p])),
    ensures
        ordered_from(rows.insert(p, e), origin.insert(p, done), names, counts, done + 1),
{
    reveal(ordered_from);
    let r2 = rows.insert(p, e);
    let o2 = origin.insert(p, done);
    assert forall|i: int| 0 <= i < r2.len() implies 0 <= #[trigger] o2[i] < done + 1 by {
        if i < p {
            assert(o2[i] == origin[i]);
        } else if i > p {
            assert(o2[i] == origin[i - 1]);
        }
    }
    assert forall|i: int| 0 <= i < r2.len() implies #[trigger] row(r2[i]) == (names[o2[i]]@, counts[o2[i]]) by {
        if i < p {
            assert(r2[i] == rows[i] && o2[i] == origin[i]);
        } else if i > p {
            assert(r2[i] == rows[i - 1] && o2[i] == origin[i - 1]);
        }
    }
    assert forall|i: int, l: int| 0 <= i < l < r2.len() implies o2[i] != o2[l] by {
        if i < p && l < p {
            assert(o2[i] == origin[i] && o2[l] == origin[l]);
        } else if i < p && l == p {
            assert(o2[i] == origin[i]);
        } else if i < p {
            assert(o2[i] == origin[i] && o2[l] == origin[l - 1]);
        } else if i == p {
            assert(o2[l] == origin[l - 1]);
        } else {
            assert(o2[i] == origin[i - 1] && o2[l] == origin[l - 1]);
        }
    }
    assert forall|m: int| 0 <= m < done + 1 implies #[trigger] o2.contains(m) by {
        if m == done {
            assert(o2[p] == done);
        } else {
            assert(origin.contains(m));
            let i = choose|i: int| 0 <= i < origin.len() && origin[i] == m;
            if i < p {
                assert(o2[i] == m);
            } else {
                assert(o2[i + 1] == m);
            }
        }
    }
    assert forall|i: int, l: int| 0 <= i < l < r2.len() implies !ranks_before(row(r2[l]), row(r2[i])) by {
        if l < p {
            assert(r2[i] == rows[i] && r2[l] == rows[l]);
        } else if l == p {
            assert(r2[i] == rows[i]);
        } else if i < p {
            assert(r2[i] == rows[i] && r2[l] == rows[l - 1]);
        } else if i == p {
            assert(r2[l] == rows[l - 1]);
            if ranks_before(row(rows[l - 1]), row(e)) {
                lemma_ranks_before_transitive(row(rows[l - 1]), row(e), row(rows[p]));
                if l - 1 == p {
                    lemma_ranks_irreflexive(row(rows[p]));
                }
            }
        } else {
            assert(r2[i] == rows[i - 1] && r2[l] == rows[l - 1]);
        }
    }
}

proof fn lemma_ranks_irreflexive(a: (Seq<char>, usize))
    ensures
        !ranks_before(a, a),
{
    lemma_text_lt_irreflexive(a.0);
}

/// The rows `(names[j], counts[j])` in breakdown order: row `i` is entry
/// `origin[i]`, and entry `j` is row `pos[j]`.
fn order_rows(names: &Vec<String>, counts: &Vec<usize>) -> (r: (Vec<(String, usize)>, Ghost<Seq<int>>, Ghost<Seq<int>>))
    requires
        names@.len() == counts@.len(),
        forall|i: int, j: int| 0 <= i < j < names@.len() ==> names@[i]@ != names@[j]@,
    ensures
        r.0@.len() == names@.len(),
        r.1@.len() == r.0@.len(),
        forall|i: int| 0 <= i < r.0@.len() ==> 0 <= #[trigger] r.1@[i] < names@.len()
            && row(r.0@[i]) == (names@[r.1@[i]]@, counts@[r.1@[i]]),
        r.2@.len() == names@.len(),
        forall|j: int| 0 <= j < names@.len() ==> 0 <= #[trigger] r.2@[j] < r.0@.len() && r.1@[r.2@[j]] == j,
        forall|i: int, l: int| 0 <= i < l < r.0@.len() ==> r.0@[i].0@ != r.0@[l].0@,
        forall|i: int, l: int| 0 <= i < l < r.0@.len() ==> !ranks_before(row(r.0@[l]), row(r.0@[i])),
{
    let k = names.len();
    let mut rows: Vec<(String, usize)> = Vec::new();
    let ghost mut origin: Seq<int> = Seq::empty();
    let mut d: usize = 0;
    proof {
        reveal(ordered_from);
    }
    while d < k
        invariant
            k == names@.len(),
            k == counts@.len(),
            d <= k,
            ordered_from(rows@, origin, names@, counts@, d as int),
        decreases k - d,
    {
        let e = (names[d].clone(), counts[d]);
        let mut p: usize = 0;
        proof {
            reveal(ordered_from);
        }
        while p < rows.len() && !(e.1 > rows[p].1 || (e.1 == rows[p].1 && text_less(e.0.as_str(), rows[p].0.as_str())))
            invariant
                p <= rows@.len(),
                forall|i: int| 0 <= i < p ==> !ranks_before(row(e), row(rows@[i])),
            decreases rows@.len() - p,
        {
            p = p + 1;
        }
        proof {
            lemma_ordered_insert(rows@, origin, names@, counts@, d as int, p as int, e);
            origin = origin.insert(p as int, d as int);
        }
        rows.insert(p, e);
        d = d + 1;
    }
    let ghost pos: Seq<int> = Seq::new(k as nat, |j: int| choose|i: int| 0 <= i < origin.len() && origin[i] == j);
    proof {
        reveal(ordered_from);
        lemma_distinct_cover(origin, k as int);
        assert forall|j: int| 0 <= j < names@.len() implies 0 <= #[trigger] pos[j] < rows@.len() && origin[pos[j]] == j by {
            assert(origin.contains(j));
        }
        assert forall|i: int, l: int| 0 <= i < l < rows@.len() implies rows@[i].0@ != rows@[l].0@ by {
            assert(row(rows@[i]) == (names@[origin[i]]@, counts@[origin[i]]));
            assert(row(rows@[l]) == (names@[origin[l]]@, counts@[origin[l]]));
            if origin[i] < origin[l] {
                assert(names@[origin[i]]@ != names@[origin[l]]@);
            } else {
                assert(names@[origin[l]]@ != names@[origin[i]]@);
            }
        }
    }
    (rows, Ghost(origin), Ghost(pos))
}

/// Distinct indices below `k` that cover every index below `k` number `k`.
proof fn lemma_distinct_cover(origin: Seq<int>, k: int)
    requires
        0 <= k,
        forall|i: int| 0 <= i < origin.len() ==> 0 <= #[trigger] origin[i] < k,
        forall|i: int, l: int| 0 <= i < l < origin.len() ==> origin[i] != origin[l],
        forall|m: int| 0 <= m < k ==> #[trigger] origin.contains(m),
    ensures
        origin.len() == k,
{
    let r = vstd::set_lib::set_int_range(0, k);
    vstd::set_lib::lemma_int_range(0, k);
    assert(origin.no_duplicates()) by {
        assert forall|i: int, l: int| 0 <= i < origin.len() && 0 <= l < origin.len() && i != l implies origin[i] != origin[l] by {
            if l < i {
                assert(origin[l] != origin[i]);
            }
        }
    }
    origin.unique_seq_to_set();
    assert(origin.to_set() =~= r) by {
        assert forall|m: int| r.contains(m) implies origin.to_set().contains(m) by {
            assert(origin.contains(m));
        }
        assert forall|m: int| origin.to_set().contains(m) implies r.contains(m) by {
            let i = choose|i: int| 0 <= i < origin.len() && origin[i] == m;
            assert(0 <= origin[i] < k);
        }
    }
}

/// Whether some row of `rows` is for the class `x`.
pub open spec fn lists_class(rows: Seq<(String, usize)>, x: Seq<char>) -> bool {
    exists|i: int| 0 <= i < rows.len() && #[trigger] rows[i].0@ == x
}

/// The breakdown of visible entities by class: one row per class that
/// occurs in `classes`, with the number of times it occurs, ordered by count
/// (largest first) and then by name.
pub fn class_breakdown(classes: &Vec<String>) -> (rows: Vec<(String, usize)>)
    ensures
        forall|i: int| 0 <= i < rows@.len() ==> #[trigger] rows@[i].1 == occurrences(classes@, rows@[i].0@),
        forall|i: int| 0 <= i < rows@.len() ==> #[trigger] rows@[i].1 >= 1,
        forall|i: int, j: int| 0 <= i < j < rows@.len() ==> rows@[i].0@ != rows@[j].0@,
        forall|t: int| 0 <= t < classes@.len() ==> lists_class(rows@, #[trigger] classes@[t]@),
        forall|i: int, j: int| 0 <= i < j < rows@.len() ==> !ranks_before(row(rows@[j]), row(rows@[i])),
{
    let (names, counts, Ghost(slot)) = count_classes(classes);
    let (rows, Ghost(origin), Ghost(pos)) = order_rows(&names, &counts);
    proof {
        assert forall|i: int| 0 <= i < rows@.len() implies #[trigger] rows@[i].1 == occurrences(classes@, rows@[i].0@)
            && rows@[i].1 >= 1 by {
            assert(0 <= origin[i] < names@.len());
            assert(counts@[origin[i]] == occurrences(classes@, names@[origin[i]]@));
            assert(counts@[origin[i]] >= 1);
        }
        assert forall|t: int| 0 <= t < classes@.len() implies lists_class(rows@, #[trigger] classes@[t]@) by {
            let j = slot[t];
            assert(0 <= j < names@.len());
            let i = pos[j];
            assert(0 <= i < rows@.len() && origin[i] == j);
            assert(rows@[i].0@ == classes@[t]@);
        }
    }
    rows
}

} // verus!
