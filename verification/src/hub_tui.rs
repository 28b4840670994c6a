//! Terminal interface of the hub: what it shows and how it answers keys.
use vstd::prelude::*;

use crate::keys::KeyCode;
use crate::manifest;
use crate::manifest::VoiceManifest;
use crate::protocol;
use crate::protocol::SignalType;
use crate::protocol::VoiceId;
use crate::protocol::WireMessage;
use crate::routing;
use crate::routing::Pattern;
use crate::text;
use crate::values;
use crate::values::FloatValue;
use crate::values::Value;
use crate::values::ValueModel;

verus! {

/// How many entries the monitors show.
pub const SHOWN_ENTRIES: usize = 20;

/// Payloads of more characters are shortened.
pub const PAYLOAD_WIDTH: usize = 40;

/// Which detail pane is displayed.
#[derive(Clone, Copy, Debug, PartialEq, Eq, Structural)]
pub enum DetailPane {
    Params,
    Schedule,
    Log,
    Manifest,
    RouteTester,
}

/// State of the interface.
#[derive(Debug)]
pub struct App {
    /// Index of the selected voice in the Voice Browser.
    pub voice_selection: usize,
    /// Which detail pane is active.
    pub detail_pane: DetailPane,
    /// Route tester pattern input.
    pub route_pattern: String,
    /// Route tester address input.
    pub route_address: String,
    /// Which input field is focused in Route Tester (0 = pattern, 1 = address).
    pub route_input_focus: usize,
    /// Whether the route tester takes text input.
    pub route_input_mode: bool,
    /// Whether the interface should quit.
    pub should_quit: bool,
}

/// The state of the interface with its inputs as sequences.
#[verifier::ext_equal]
pub struct AppModel {
    pub voice_selection: usize,
    pub detail_pane: DetailPane,
    pub route_pattern: Seq<char>,
    pub route_address: Seq<char>,
    pub route_input_focus: usize,
    pub route_input_mode: bool,
    pub should_quit: bool,
}

impl View for App {
    type V = AppModel;

    open spec fn view(&self) -> AppModel {
        AppModel {
            voice_selection: self.voice_selection,
            detail_pane: self.detail_pane,
            route_pattern: self.route_pattern@,
            route_address: self.route_address@,
            route_input_focus: self.route_input_focus,
            route_input_mode: self.route_input_mode,
            should_quit: self.should_quit,
        }
    }
}

/// A connected voice.
#[derive(Debug)]
pub struct VoiceInfo {
    pub id: VoiceId,
    pub name: String,
    /// Hub time of the connection.
    pub connected_at: FloatValue,
}

/// A param that the hub holds.
#[derive(Debug)]
pub struct ParamInfo {
    pub address: String,
    pub source: VoiceId,
    pub source_name: String,
    pub message: WireMessage,
}

/// A labelled line of text.
#[derive(Debug, PartialEq, Eq)]
pub struct LabelledLine {
    pub label: String,
    pub text: String,
}

/// What the lines say.
pub open spec fn line_views(lines: Seq<LabelledLine>) -> Seq<(Seq<char>, Seq<char>)> {
    lines.map_values(|l: LabelledLine| (l.label@, l.text@))
}

/// What the route tester finds.
#[derive(Debug, PartialEq, Eq)]
pub enum RouteResult {
    /// One of the inputs is still empty.
    Incomplete,
    Matched,
    NotMatched,
    /// The pattern is not valid, for this reason.
    Invalid(String),
}

// ---------------------------------------------------------------------------
// Small helpers
// ---------------------------------------------------------------------------

/// Clamps a selection index to a list of `len` items (an empty list clamps to
/// 0), since voices may leave between draws.
pub fn clamp_selection(selection: usize, len: usize) -> (r: usize)
    ensures
        len == 0 ==> r == 0,
        selection < len ==> r == selection,
        0 < len <= selection ==> r == len - 1,
{
    if len == 0 {
        0
    } else if selection < len {
        selection
    } else {
        len - 1
    }
}

/// A payload text as it is shown.
pub open spec fn truncated(s: Seq<char>) -> Seq<char> {
    if s.len() > PAYLOAD_WIDTH {
        s.take(PAYLOAD_WIDTH - 3) + "..."@
    } else {
        s
    }
}

/// Shortens a payload text for display, by characters.
pub fn truncate_payload(payload: &str) -> (r: String)
    ensures
        r@ == truncated(payload@),
{
    let chars = text::chars_of(payload);
    if chars.len() > PAYLOAD_WIDTH {
        let mut out = text::string_between(&chars, 0, PAYLOAD_WIDTH - 3);
        assert(out@ =~= payload@.take(PAYLOAD_WIDTH - 3));
        out.append("...");
        out
    } else {
        payload.to_owned()
    }
}

/// A shown payload has at most 40 characters, and shortening it again changes
/// nothing.
pub proof fn law_shown_payload_fits(s: Seq<char>)
    ensures
        truncated(s).len() <= PAYLOAD_WIDTH,
        truncated(truncated(s)) == truncated(s),
{
    reveal_strlit("...");
}

/// The short name of a signal type.
pub open spec fn signal_label(signal_type: SignalType) -> Seq<char> {
    match signal_type {
        SignalType::Event => "EVT"@,
        SignalType::Param => "PAR"@,
        SignalType::Stream => "STR"@,
    }
}

/// The line of an action in a monitor, behind its time as a text.
pub open spec fn action_text(
    time: Seq<char>,
    signal_type: SignalType,
    source_name: Seq<char>,
    address: Seq<char>,
) -> Seq<char> {
    "  ["@ + time + "] "@ + signal_label(signal_type) + " "@ + source_name + " -> "@ + address
}

/// The line of an action in a monitor.
pub fn action_line(time: &str, signal_type: SignalType, source_name: &str, address: &str) -> (r:
    String)
    ensures
        r@ == action_text(time@, signal_type, source_name@, address@),
{
    let mut out = "  [".to_owned();
    out.append(time);
    out.append("] ");
    match signal_type {
        SignalType::Event => out.append("EVT"),
        SignalType::Param => out.append("PAR"),
        SignalType::Stream => out.append("STR"),
    }
    out.append(" ");
    out.append(source_name);
    out.append(" -> ");
    out.append(address);
    out
}

/// The positions of the entries that a monitor shows: the newest ones, the last
/// one first.
pub open spec fn shown_positions(len: nat) -> Seq<usize> {
    Seq::new(
        if len < SHOWN_ENTRIES {
            len
        } else {
            SHOWN_ENTRIES as nat
        },
        |i: int| (len - 1 - i) as usize,
    )
}

/// The positions of the entries that a monitor shows, of `len` in all.
pub fn newest_entries(len: usize) -> (r: Vec<usize>)
    ensures
        r@ == shown_positions(len as nat),
{
    let n: usize = if len < SHOWN_ENTRIES {
        len
    } else {
        SHOWN_ENTRIES
    };
    let mut out: Vec<usize> = Vec::new();
    let mut i: usize = 0;
    while i < n
        invariant
            i <= n <= len,
            out@.len() == i,
            forall|j: int| 0 <= j < i ==> #[trigger] out@[j] == len - 1 - j,
        decreases n - i,
    {
        out.push(len - 1 - i);
        i = i + 1;
    }
    assert(out@ =~= shown_positions(len as nat));
    out
}

/// The lines of the log viewer.
pub open spec fn log_lines_of(log: Seq<Seq<char>>) -> Seq<Seq<char>> {
    shown_positions(log.len()).map_values(|at: usize| "  "@ + log[at as int])
}

/// The lines of the log viewer: the newest events, the last one first.
pub fn log_lines(log: &Vec<String>) -> (r: Vec<String>)
    ensures
        text::views(r@) == log_lines_of(text::views(log@)),
{
    let positions = newest_entries(log.len());
    let mut out: Vec<String> = Vec::new();
    let mut i: usize = 0;
    while i < positions.len()
        invariant
            i <= positions@.len(),
            positions@ == shown_positions(log@.len()),
            out@.len() == i,
            forall|j: int|
                0 <= j < i ==> (#[trigger] out@[j])@ == "  "@ + log@[positions@[j] as int]@,
        decreases positions@.len() - i,
    {
        let mut line = "  ".to_owned();
        line.append(log[positions[i]].as_str());
        out.push(line);
        i = i + 1;
    }
    assert(text::views(out@) =~= log_lines_of(text::views(log@)));
    out
}

// ---------------------------------------------------------------------------
// Voices and params
// ---------------------------------------------------------------------------

/// Whether the voices are in the order of their IDs.
pub open spec fn ordered(voices: Seq<VoiceInfo>) -> bool {
    forall|i: int, j: int| 0 <= i < j < voices.len() ==> voices[i].id <= voices[j].id
}

/// Puts the voices in the order of their IDs, so that the list is stable and a
/// selection keeps its meaning.
pub fn sort_voices(voices: Vec<VoiceInfo>) -> (r: Vec<VoiceInfo>)
    ensures
        ordered(r@),
        r@.to_multiset() == voices@.to_multiset(),
{
    let mut rest = voices;
    let mut out: Vec<VoiceInfo> = Vec::new();
    proof {
        voices@.to_multiset_ensures();
        assert(out@.to_multiset() =~= vstd::multiset::Multiset::empty()) by {
            out@.to_multiset_ensures();
        }
    }
    while rest.len() > 0
        invariant
            ordered(out@),
            out@.to_multiset().add(rest@.to_multiset()) == voices@.to_multiset(),
        decreases rest@.len(),
    {
        let ghost before = rest@;
        let ghost sorted = out@;
        match rest.pop() {
            Some(v) => {
                let ghost voice = v;
                let mut at: usize = 0;
                while at < out.len() && out[at].id < v.id
                    invariant
                        at <= out@.len(),
                        out@ == sorted,
                        ordered(out@),
                        forall|j: int| 0 <= j < at ==> (#[trigger] out@[j]).id < v.id,
                    decreases out@.len() - at,
                {
                    at = at + 1;
                }
                out.insert(at, v);
                proof {
                    assert(before =~= rest@.push(voice));
                    rest@.to_multiset_ensures();
                    assert(out@.remove(at as int) =~= sorted);
                    out@.to_multiset_ensures();
                    assert(out@[at as int] == voice);
                    assert(out@.contains(voice));
                    assert(out@.to_multiset().count(voice) > 0);
                    assert(out@.to_multiset() =~= sorted.to_multiset().insert(voice));
                    assert(out@.to_multiset().add(rest@.to_multiset())
                        =~= sorted.to_multiset().add(before.to_multiset()));
                    assert forall|i: int, j: int| 0 <= i < j < out@.len() implies out@[i].id
                        <= out@[j].id by {
                        let a = if i < at {
                            i
                        } else {
                            i - 1
                        };
                        let b = if j < at {
                            j
                        } else {
                            j - 1
                        };
                        if i != at {
                            assert(out@[i] == sorted[a]);
                        }
                        if j != at {
                            assert(out@[j] == sorted[b]);
                        }
                        if i == at && at < sorted.len() {
                            assert(sorted[at as int].id >= voice.id);
                        }
                    }
                }
            },
            None => {},
        }
    }
    proof {
        rest@.to_multiset_ensures();
        assert(rest@.to_multiset() =~= vstd::multiset::Multiset::empty());
        assert(out@.to_multiset() =~= voices@.to_multiset());
    }
    out
}

/// The ID of the selected voice.
pub fn selected_voice(voices: &Vec<VoiceInfo>, selection: usize) -> (r: Option<VoiceId>)
    ensures
        r == (if selection < voices@.len() {
            Some(voices@[selection as int].id)
        } else {
            None::<VoiceId>
        }),
{
    if selection < voices.len() {
        Some(voices[selection].id)
    } else {
        None
    }
}

/// The positions of the params from the selected voice; of all where no voice is
/// selected.
pub open spec fn inspected(params: Seq<ParamInfo>, selected: Option<VoiceId>) -> Seq<usize>
    decreases params.len(),
{
    if params.len() == 0 {
        Seq::empty()
    } else {
        let init = inspected(params.drop_last(), selected);
        if selected is None || selected == Some(params.last().source) {
            init.push((params.len() - 1) as usize)
        } else {
            init
        }
    }
}

/// The positions of the params that the inspector shows.
pub fn inspected_params(params: &Vec<ParamInfo>, selected: Option<VoiceId>) -> (r: Vec<usize>)
    ensures
        r@ == inspected(params@, selected),
{
    let mut out: Vec<usize> = Vec::new();
    let mut i: usize = 0;
    assert(params@.take(0) =~= Seq::empty());
    while i < params.len()
        invariant
            i <= params@.len(),
            out@ == inspected(params@.take(i as int), selected),
        decreases params@.len() - i,
    {
        assert(params@.take(i as int + 1).drop_last() =~= params@.take(i as int));
        let shown = match selected {
            Some(id) => params[i].source == id,
            None => true,
        };
        if shown {
            out.push(i);
        }
        i = i + 1;
    }
    assert(params@.take(params@.len() as int) =~= params@);
    out
}

/// The value of a param that is shown: its payload, or the whole payload of a
/// message that is no map.
pub open spec fn shown_value(m: protocol::MessageModel) -> Option<ValueModel> {
    match m.payload {
        ValueModel::Dict(f) => if f.dom().contains("payload"@) {
            Some(f["payload"@])
        } else {
            None
        },
        other => Some(other),
    }
}

/// The value of a param that is shown, where it has one.
pub fn param_value<'a>(message: &'a WireMessage) -> (r: Option<&'a Value>)
    ensures
        match r {
            Some(v) => shown_value(message@) == Some(v@),
            None => shown_value(message@) is None,
        },
{
    match &message.payload {
        Value::Dict(m) => values::field(m, "payload"),
        other => Some(other),
    }
}

/// The line of a param; `payload` is the text of its value, `?` where it has none.
pub open spec fn param_text(
    address: Seq<char>,
    payload: Option<Seq<char>>,
    source_name: Seq<char>,
) -> Seq<char> {
    let shown = match payload {
        Some(s) => s,
        None => "?"@,
    };
    "  "@ + address + " = "@ + truncated(shown) + "  (from "@ + source_name + ")"@
}

/// The line of a param in the inspector.
pub fn param_line(param: &ParamInfo, payload: &Option<String>) -> (r: String)
    ensures
        r@ == param_text(param.address@, text::opt_view(*payload), param.source_name@),
{
    let shown = match payload {
        Some(s) => truncate_payload(s.as_str()),
        None => truncate_payload("?"),
    };
    let mut out = "  ".to_owned();
    out.append(param.address.as_str());
    out.append(" = ");
    out.append(shown.as_str());
    out.append("  (from ");
    out.append(param.source_name.as_str());
    out.append(")");
    out
}

// ---------------------------------------------------------------------------
// The manifest browser
// ---------------------------------------------------------------------------

/// The line of an optional text.
pub open spec fn optional_line(label: Seq<char>, s: Option<Seq<char>>) -> Seq<
    (Seq<char>, Seq<char>),
> {
    match s {
        Some(s) => seq![(label, s)],
        None => Seq::empty(),
    }
}

/// The line of a list of texts, none where it is empty.
pub open spec fn list_line(label: Seq<char>, items: Seq<Seq<char>>) -> Seq<
    (Seq<char>, Seq<char>),
> {
    if items.len() == 0 {
        Seq::empty()
    } else {
        seq![(label, text::join_text(items, ", "@))]
    }
}

/// The line of a route.
pub open spec fn route_line(r: manifest::RouteModel) -> (Seq<char>, Seq<char>) {
    (
        ""@,
        "  "@ + r.address + " -> "@ + match r.description {
            Some(d) => d,
            None => ""@,
        },
    )
}

/// The lines of a manifest's routes, none where it has no route.
pub open spec fn route_lines(routes: Seq<manifest::RouteModel>) -> Seq<(Seq<char>, Seq<char>)> {
    if routes.len() == 0 {
        Seq::empty()
    } else {
        seq![(""@, ""@), ("Routes:"@, ""@)] + routes.map_values(
            |r: manifest::RouteModel| route_line(r),
        )
    }
}

/// The lines of a manifest.
pub open spec fn manifest_text(m: manifest::ManifestModel) -> Seq<(Seq<char>, Seq<char>)> {
    seq![("Name: "@, m.name), (""@, ""@)] + optional_line("Description: "@, m.description)
        + optional_line("Version: "@, m.version) + list_line("Tags: "@, m.tags) + list_line(
        "Provides: "@,
        m.provides,
    ) + list_line("Expects: "@, m.expects) + route_lines(m.routes)
}

fn push_line(lines: &mut Vec<LabelledLine>, label: &str, text: String)
    ensures
        line_views(final(lines)@) == line_views(old(lines)@).push((label@, text@)),
{
    let ghost before = lines@;
    let ghost content = text@;
    lines.push(LabelledLine { label: label.to_owned(), text });
    assert(line_views(lines@) =~= line_views(before).push((label@, content)));
}

fn push_optional(lines: &mut Vec<LabelledLine>, label: &str, text: &Option<String>)
    ensures
        line_views(final(lines)@) == line_views(old(lines)@) + optional_line(
            label@,
            text::opt_view(*text),
        ),
{
    match text {
        Some(s) => {
            let ghost before = line_views(lines@);
            push_line(lines, label, s.as_str().to_owned());
            assert(line_views(lines@) =~= before + optional_line(label@, Some(s@)));
        },
        None => {
            assert(line_views(lines@) + optional_line(label@, None) =~= line_views(lines@));
        },
    }
}

fn push_list(lines: &mut Vec<LabelledLine>, label: &str, items: &Vec<String>)
    ensures
        line_views(final(lines)@) == line_views(old(lines)@) + list_line(
            label@,
            text::views(items@),
        ),
{
    if items.len() > 0 {
        let ghost before = line_views(lines@);
        push_line(lines, label, text::join_str(items, ", "));
        assert(line_views(lines@) =~= before + list_line(label@, text::views(items@)));
    } else {
        assert(line_views(lines@) + list_line(label@, text::views(items@)) =~= line_views(lines@));
    }
}

/// The lines of the manifest browser for a manifest.
pub fn manifest_lines(m: &VoiceManifest) -> (r: Vec<LabelledLine>)
    ensures
        line_views(r@) == manifest_text(m@),
{
    let mut lines: Vec<LabelledLine> = Vec::new();
    push_line(&mut lines, "Name: ", m.name.as_str().to_owned());
    push_line(&mut lines, "", "".to_owned());
    assert(line_views(lines@) =~= seq![("Name: "@, m@.name), (""@, ""@)]);
    push_optional(&mut lines, "Description: ", &m.description);
    push_optional(&mut lines, "Version: ", &m.version);
    push_list(&mut lines, "Tags: ", &m.tags);
    push_list(&mut lines, "Provides: ", &m.provides);
    push_list(&mut lines, "Expects: ", &m.expects);
    let ghost head = line_views(lines@);
    if m.routes.len() > 0 {
        push_line(&mut lines, "", "".to_owned());
        push_line(&mut lines, "Routes:", "".to_owned());
        let ghost all = m@.routes.map_values(|r: manifest::RouteModel| route_line(r));
        let ghost title = seq![(""@, ""@), ("Routes:"@, ""@)];
        let mut i: usize = 0;
        assert(line_views(lines@) =~= head + (title + all.take(0)));
        while i < m.routes.len()
            invariant
                i <= m.routes@.len(),
                all == m@.routes.map_values(|r: manifest::RouteModel| route_line(r)),
                line_views(lines@) == head + (title + all.take(i as int)),
            decreases m.routes@.len() - i,
        {
            let route = &m.routes[i];
            let mut line = "  ".to_owned();
            line.append(route.address.as_str());
            line.append(" -> ");
            match &route.description {
                Some(d) => line.append(d.as_str()),
                None => line.append(""),
            }
            let ghost content = line@;
            assert((""@, content) == all[i as int]);
            push_line(&mut lines, "", line);
            assert(all.take(i as int + 1) =~= all.take(i as int).push(all[i as int]));
            assert(line_views(lines@) =~= head + (title + all.take(i as int + 1)));
            i = i + 1;
        }
        assert(all.take(all.len() as int) =~= all);
        assert(title + all == route_lines(m@.routes));
    } else {
        assert(head + route_lines(m@.routes) =~= head);
    }
    lines
}

// ---------------------------------------------------------------------------
// The route tester
// ---------------------------------------------------------------------------

/// What an input field shows: its text, with a cursor behind it while it is
/// edited.
pub open spec fn field_text(s: Seq<char>, edited: bool) -> Seq<char> {
    if edited {
        s.push('_')
    } else {
        s
    }
}

fn shown_field(s: &str, edited: bool) -> (r: String)
    ensures
        r@ == field_text(s@, edited),
{
    let mut out = s.to_owned();
    if edited {
        out.push('_');
    }
    out
}

/// What the route tester finds for its inputs.
pub open spec fn route_outcome(pattern: Seq<char>, address: Seq<char>, r: RouteResult) -> bool {
    if pattern.len() == 0 || address.len() == 0 {
        r is Incomplete
    } else {
        match routing::pattern_model(pattern) {
            Ok(_) => if routing::pattern_accepts(pattern, address) {
                r is Matched
            } else {
                r is NotMatched
            },
            Err(e) => r matches RouteResult::Invalid(reason) && reason@ == routing::error_text(e),
        }
    }
}

/// The pane behind another one.
pub open spec fn next_pane(pane: DetailPane) -> DetailPane {
    match pane {
        DetailPane::Params => DetailPane::Schedule,
        DetailPane::Schedule => DetailPane::Log,
        DetailPane::Log => DetailPane::Manifest,
        DetailPane::Manifest => DetailPane::RouteTester,
        DetailPane::RouteTester => DetailPane::Params,
    }
}

/// Whether keys go to the input fields.
pub open spec fn takes_input(a: AppModel) -> bool {
    a.route_input_mode && a.detail_pane == DetailPane::RouteTester
}

/// A text without its last character.
pub open spec fn erased(s: Seq<char>) -> Seq<char> {
    if s.len() == 0 {
        s
    } else {
        s.drop_last()
    }
}

/// The state after a key, while keys go to the input fields.
pub open spec fn after_input_key(a: AppModel, key: KeyCode) -> AppModel {
    match key {
        KeyCode::Esc => AppModel { route_input_mode: false, ..a },
        KeyCode::Enter => AppModel { route_input_mode: false, ..a },
        KeyCode::Tab => AppModel {
            route_input_focus: if a.route_input_focus == 0 {
                1
            } else {
                0
            },
            ..a
        },
        KeyCode::Backspace => if a.route_input_focus == 0 {
            AppModel { route_pattern: erased(a.route_pattern), ..a }
        } else {
            AppModel { route_address: erased(a.route_address), ..a }
        },
        KeyCode::Char(c) => if a.route_input_focus == 0 {
            AppModel { route_pattern: a.route_pattern.push(c), ..a }
        } else {
            AppModel { route_address: a.route_address.push(c), ..a }
        },
        _ => a,
    }
}

/// The state with the selection moved up.
pub open spec fn selected_up(a: AppModel) -> AppModel {
    if a.voice_selection > 0 {
        AppModel { voice_selection: (a.voice_selection - 1) as usize, ..a }
    } else {
        a
    }
}

/// The state with the selection moved down.
pub open spec fn selected_down(a: AppModel) -> AppModel {
    AppModel { voice_selection: (a.voice_selection + 1) as usize, ..a }
}

/// The state after a key, while keys are commands.
pub open spec fn after_command_key(a: AppModel, key: KeyCode) -> AppModel {
    match key {
        KeyCode::Tab => AppModel { detail_pane: next_pane(a.detail_pane), ..a },
        KeyCode::Up => selected_up(a),
        KeyCode::Down => selected_down(a),
        KeyCode::Char(c) => if c == 'q' {
            AppModel { should_quit: true, ..a }
        } else if c == '1' {
            AppModel { detail_pane: DetailPane::Params, ..a }
        } else if c == '2' {
            AppModel { detail_pane: DetailPane::Schedule, ..a }
        } else if c == '3' {
            AppModel { detail_pane: DetailPane::Log, ..a }
        } else if c == '4' {
            AppModel { detail_pane: DetailPane::Manifest, ..a }
        } else if c == '5' {
            AppModel { detail_pane: DetailPane::RouteTester, ..a }
        } else if c == 'k' {
            selected_up(a)
        } else if c == 'j' {
            selected_down(a)
        } else if c == 'i' && a.detail_pane == DetailPane::RouteTester {
            AppModel { route_input_mode: true, ..a }
        } else {
            a
        },
        _ => a,
    }
}

/// Whether a key event moves the selection down.
pub open spec fn moves_down(a: AppModel, key: KeyCode, pressed: bool) -> bool {
    pressed && !takes_input(a) && (key == KeyCode::Down || key == KeyCode::Char('j'))
}

/// The state after a key event. Only presses count.
pub open spec fn after_key(a: AppModel, key: KeyCode, pressed: bool) -> AppModel {
    if !pressed {
        a
    } else if takes_input(a) {
        after_input_key(a, key)
    } else {
        after_command_key(a, key)
    }
}

/// A text without its last character.
fn erase_last(s: &str) -> (r: String)
    ensures
        r@ == erased(s@),
{
    let chars = text::chars_of(s);
    if chars.len() == 0 {
        return String::new();
    }
    let out = text::string_between(&chars, 0, chars.len() - 1);
    assert(out@ =~= s@.drop_last());
    out
}

impl App {
    /// The state at the start.
    pub fn new() -> (r: Self)
        ensures
            r@ == (AppModel {
                voice_selection: 0,
                detail_pane: DetailPane::Params,
                route_pattern: Seq::empty(),
                route_address: Seq::empty(),
                route_input_focus: 0,
                route_input_mode: false,
                should_quit: false,
            }),
    {
        App {
            voice_selection: 0,
            detail_pane: DetailPane::Params,
            route_pattern: String::new(),
            route_address: String::new(),
            route_input_focus: 0,
            route_input_mode: false,
            should_quit: false,
        }
    }

    /// The position of the active pane's tab.
    pub fn selected_tab(&self) -> (r: usize)
        ensures
            r == (match self.detail_pane {
                DetailPane::Params => 0int,
                DetailPane::Schedule => 1,
                DetailPane::Log => 2,
                DetailPane::Manifest => 3,
                DetailPane::RouteTester => 4,
            }),
    {
        match self.detail_pane {
            DetailPane::Params => 0,
            DetailPane::Schedule => 1,
            DetailPane::Log => 2,
            DetailPane::Manifest => 3,
            DetailPane::RouteTester => 4,
        }
    }

    /// What the pattern field of the route tester shows.
    pub fn pattern_field(&self) -> (r: String)
        ensures
            r@ == field_text(
                self.route_pattern@,
                self.route_input_focus == 0 && self.route_input_mode,
            ),
    {
        shown_field(
            self.route_pattern.as_str(),
            self.route_input_focus == 0 && self.route_input_mode,
        )
    }

    /// What the address field of the route tester shows.
    pub fn address_field(&self) -> (r: String)
        ensures
            r@ == field_text(
                self.route_address@,
                self.route_input_focus == 1 && self.route_input_mode,
            ),
    {
        shown_field(
            self.route_address.as_str(),
            self.route_input_focus == 1 && self.route_input_mode,
        )
    }

    /// What the route tester finds for its inputs.
    pub fn route_result(&self) -> (r: RouteResult)
        ensures
            route_outcome(self.route_pattern@, self.route_address@, r),
    {
        let pattern_chars = text::chars_of(self.route_pattern.as_str());
        let address_chars = text::chars_of(self.route_address.as_str());
        if pattern_chars.len() == 0 || address_chars.len() == 0 {
            return RouteResult::Incomplete;
        }
        match Pattern::parse(self.route_pattern.as_str()) {
            Ok(pattern) => {
                if pattern.matches(self.route_address.as_str()).is_some() {
                    RouteResult::Matched
                } else {
                    RouteResult::NotMatched
                }
            },
            Err(e) => RouteResult::Invalid(e.message()),
        }
    }

    /// Handles a key event.
    pub fn handle_input(&mut self, key: KeyCode, pressed: bool)
        requires
            moves_down(old(self)@, key, pressed) ==> old(self).voice_selection < usize::MAX,
        ensures
            final(self)@ == after_key(old(self)@, key, pressed),
    {
        if !pressed {
            return;
        }
        let tester = matches!(self.detail_pane, DetailPane::RouteTester);
        if self.route_input_mode && tester {
            match key {
                KeyCode::Esc => {
                    self.route_input_mode = false;
                },
                KeyCode::Enter => {
                    self.route_input_mode = false;
                },
                KeyCode::Tab => {
                    self.route_input_focus = if self.route_input_focus == 0 {
                        1
                    } else {
                        0
                    };
                },
                KeyCode::Backspace => {
                    if self.route_input_focus == 0 {
                        self.route_pattern = erase_last(self.route_pattern.as_str());
                    } else {
                        self.route_address = erase_last(self.route_address.as_str());
                    }
                },
                KeyCode::Char(c) => {
                    if self.route_input_focus == 0 {
                        self.route_pattern.push(c);
                    } else {
                        self.route_address.push(c);
                    }
                },
                _ => {},
            }
            return;
        }
        match key {
            KeyCode::Tab => {
                self.detail_pane = match self.detail_pane {
                    DetailPane::Params => DetailPane::Schedule,
                    DetailPane::Schedule => DetailPane::Log,
                    DetailPane::Log => DetailPane::Manifest,
                    DetailPane::Manifest => DetailPane::RouteTester,
                    DetailPane::RouteTester => DetailPane::Params,
                };
            },
            KeyCode::Up => {
                self.select_up();
            },
            KeyCode::Down => {
                self.voice_selection = self.voice_selection + 1;
            },
            KeyCode::Char(c) => {
                if c == 'q' {
                    self.should_quit = true;
                } else if c == '1' {
                    self.detail_pane = DetailPane::Params;
                } else if c == '2' {
                    self.detail_pane = DetailPane::Schedule;
                } else if c == '3' {
                    self.detail_pane = DetailPane::Log;
                } else if c == '4' {
                    self.detail_pane = DetailPane::Manifest;
                } else if c == '5' {
                    self.detail_pane = DetailPane::RouteTester;
                } else if c == 'k' {
                    self.select_up();
                } else if c == 'j' {
                    self.voice_selection = self.voice_selection + 1;
                } else if c == 'i' && tester {
                    self.route_input_mode = true;
                }
            },
            _ => {},
        }
    }

    fn select_up(&mut self)
        ensures
            final(self)@ == selected_up(old(self)@),
    {
        if self.voice_selection > 0 {
            self.voice_selection = self.voice_selection - 1;
        }
    }
}

/// Tab goes round all five panes.
pub proof fn law_tab_goes_round(pane: DetailPane)
    ensures
        next_pane(next_pane(next_pane(next_pane(next_pane(pane))))) == pane,
{
}

/// While a field is edited, letters go into it: none of them is a command.
pub proof fn law_letters_are_input(a: AppModel, c: char)
    requires
        takes_input(a),
    ensures
        after_key(a, KeyCode::Char(c), true).should_quit == a.should_quit,
        after_key(a, KeyCode::Char(c), true).detail_pane == a.detail_pane,
        after_key(a, KeyCode::Char(c), true).voice_selection == a.voice_selection,
        takes_input(after_key(a, KeyCode::Char(c), true)),
{
}

/// Backspace takes back the letter that was typed last.
pub proof fn law_backspace_undoes_a_letter(a: AppModel, c: char)
    requires
        takes_input(a),
    ensures
        after_key(after_key(a, KeyCode::Char(c), true), KeyCode::Backspace, true) == a,
{
    assert(a.route_pattern.push(c).drop_last() =~= a.route_pattern);
    assert(a.route_address.push(c).drop_last() =~= a.route_address);
}

/// With a voice selected the inspector shows params of that voice only.
pub proof fn law_inspector_shows_the_selected_voice(
    params: Seq<ParamInfo>,
    id: VoiceId,
    at: usize,
)
    requires
        params.len() <= usize::MAX,
    ensures
        inspected(params, Some(id)).contains(at) <==> (at < params.len() && params[at as int].source
            == id),
    decreases params.len(),
{
    if params.len() > 0 {
        law_inspector_shows_the_selected_voice(params.drop_last(), id, at);
        let init = inspected(params.drop_last(), Some(id));
        let last = (params.len() - 1) as usize;
        if params.last().source == id {
            let all = init.push(last);
            if init.contains(at) {
                let i = choose|i: int| 0 <= i < init.len() && init[i] == at;
                assert(all[i] == at);
            }
            assert(all[init.len() as int] == last);
            if all.contains(at) && at != last {
                let i = choose|i: int| 0 <= i < all.len() && all[i] == at;
                assert(init[i] == at);
            }
        }
    }
}

/// A payload of at most 40 characters is shown whole; of a longer one its first 37
/// characters and three dots.
pub proof fn law_payload_is_shown(s: Seq<char>)
    ensures
        s.len() <= 40 ==> truncated(s) == s,
        s.len() > 40 ==> {
            &&& truncated(s).len() == 40
            &&& truncated(s).take(37) == s.take(37)
            &&& truncated(s).skip(37) == seq!['.', '.', '.']
        },
{
    reveal_strlit("...");
    if s.len() > 40 {
        assert(truncated(s).take(37) =~= s.take(37));
        assert(truncated(s).skip(37) =~= seq!['.', '.', '.']);
    }
}

/// A monitor shows the newest entry first and goes back entry by entry, up to twenty.
pub proof fn law_newest_first(len: nat)
    requires
        len <= usize::MAX,
    ensures
        len <= 20 ==> shown_positions(len).len() == len,
        len > 20 ==> shown_positions(len).len() == 20,
        len > 0 ==> shown_positions(len)[0] == len - 1,
        forall|i: int|
            0 <= i < shown_positions(len).len() - 1 ==> #[trigger] shown_positions(len)[i + 1]
                == shown_positions(len)[i] - 1,
{
}

/// The log viewer shows the latest event first.
pub proof fn law_log_shows_the_latest_first(log: Seq<Seq<char>>, i: int)
    requires
        log.len() <= usize::MAX,
        0 <= i < log.len(),
        i < 20,
    ensures
        i < log_lines_of(log).len(),
        log_lines_of(log)[i] == seq![' ', ' '] + log[log.len() - 1 - i],
{
    reveal_strlit("  ");
    assert("  "@ =~= seq![' ', ' ']);
}

/// Without a selected voice the inspector shows all params, in order.
pub proof fn law_inspector_shows_all(params: Seq<ParamInfo>)
    requires
        params.len() <= usize::MAX,
    ensures
        inspected(params, None).len() == params.len(),
        forall|i: int| 0 <= i < params.len() ==> #[trigger] inspected(params, None)[i] == i,
    decreases params.len(),
{
    if params.len() > 0 {
        law_inspector_shows_all(params.drop_last());
        let init = inspected(params.drop_last(), None);
        assert forall|i: int| 0 <= i < params.len() implies #[trigger] inspected(params, None)[i]
            == i by {
            if i < init.len() {
                assert(init[i] == i);
            }
        }
    }
}

/// The inspector shows params in the order in which the hub holds them, each once.
pub proof fn law_inspector_keeps_the_order(params: Seq<ParamInfo>, selected: Option<VoiceId>)
    requires
        params.len() <= usize::MAX,
    ensures
        forall|i: int, j: int|
            0 <= i < j < inspected(params, selected).len() ==> #[trigger] inspected(
                params,
                selected,
            )[i] < #[trigger] inspected(params, selected)[j],
        forall|i: int|
            0 <= i < inspected(params, selected).len() ==> #[trigger] inspected(params, selected)[i]
                < params.len(),
    decreases params.len(),
{
    if params.len() > 0 {
        law_inspector_keeps_the_order(params.drop_last(), selected);
        let init = inspected(params.drop_last(), selected);
        let all = inspected(params, selected);
        assert forall|i: int| 0 <= i < init.len() implies #[trigger] all[i] == init[i] by {}
        assert forall|i: int, j: int| 0 <= i < j < all.len() implies #[trigger] all[i]
            < #[trigger] all[j] by {
            assert(all[i] == init[i]);
            assert(init[i] < params.len() - 1);
            if j < init.len() {
                assert(all[j] == init[j]);
            }
        }
        assert forall|i: int| 0 <= i < all.len() implies #[trigger] all[i] < params.len() by {
            if i < init.len() {
                assert(all[i] == init[i]);
                assert(init[i] < params.len() - 1);
            }
        }
    }
}

/// Each number key shows its pane, and Tab goes from the pane of a number to that of the
/// next.
pub proof fn law_number_keys_show_the_panes(a: AppModel)
    requires
        !takes_input(a),
    ensures
        after_key(a, KeyCode::Char('1'), true) == (AppModel { detail_pane: DetailPane::Params, ..a }),
        after_key(a, KeyCode::Char('2'), true) == (AppModel {
            detail_pane: DetailPane::Schedule,
            ..a
        }),
        after_key(a, KeyCode::Char('3'), true) == (AppModel { detail_pane: DetailPane::Log, ..a }),
        after_key(a, KeyCode::Char('4'), true) == (AppModel {
            detail_pane: DetailPane::Manifest,
            ..a
        }),
        after_key(a, KeyCode::Char('5'), true) == (AppModel {
            detail_pane: DetailPane::RouteTester,
            ..a
        }),
        after_key(after_key(a, KeyCode::Char('1'), true), KeyCode::Tab, true) == after_key(
            a,
            KeyCode::Char('2'),
            true,
        ),
        after_key(after_key(a, KeyCode::Char('2'), true), KeyCode::Tab, true) == after_key(
            a,
            KeyCode::Char('3'),
            true,
        ),
        after_key(after_key(a, KeyCode::Char('3'), true), KeyCode::Tab, true) == after_key(
            a,
            KeyCode::Char('4'),
            true,
        ),
        after_key(after_key(a, KeyCode::Char('4'), true), KeyCode::Tab, true) == after_key(
            a,
            KeyCode::Char('5'),
            true,
        ),
{
}

/// Up takes back Down, and stays at the top; `j` and `k` do the same as the arrows.
pub proof fn law_selection_moves(a: AppModel)
    requires
        !takes_input(a),
        a.voice_selection < usize::MAX,
    ensures
        after_key(a, KeyCode::Down, true).voice_selection == a.voice_selection + 1,
        after_key(after_key(a, KeyCode::Down, true), KeyCode::Up, true) == a,
        a.voice_selection == 0 ==> after_key(a, KeyCode::Up, true) == a,
        after_key(a, KeyCode::Char('j'), true) == after_key(a, KeyCode::Down, true),
        after_key(a, KeyCode::Char('k'), true) == after_key(a, KeyCode::Up, true),
{
}

/// A key that is let go does nothing.
pub proof fn law_releases_do_nothing(a: AppModel, key: KeyCode)
    ensures
        after_key(a, key, false) == a,
{
}

/// `i` starts editing in the route tester alone; Esc and Enter end it and leave what was
/// typed; Tab goes to the other field and back.
pub proof fn law_editing_starts_and_ends(a: AppModel)
    requires
        a.route_input_focus <= 1,
    ensures
        a.detail_pane == DetailPane::RouteTester && !a.route_input_mode ==> {
            let editing = after_key(a, KeyCode::Char('i'), true);
            &&& takes_input(editing)
            &&& after_key(editing, KeyCode::Esc, true) == a
            &&& after_key(editing, KeyCode::Enter, true) == a
            &&& after_key(editing, KeyCode::Tab, true).route_input_focus == 1 - a.route_input_focus
            &&& after_key(after_key(editing, KeyCode::Tab, true), KeyCode::Tab, true) == editing
        },
        a.detail_pane != DetailPane::RouteTester ==> after_key(a, KeyCode::Char('i'), true) == a,
{
}

/// A letter goes to the end of the field that has the focus, and the other field stays.
pub proof fn law_letters_go_to_the_focus(a: AppModel, c: char)
    requires
        takes_input(a),
    ensures
        a.route_input_focus == 0 ==> after_key(a, KeyCode::Char(c), true) == (AppModel {
            route_pattern: a.route_pattern.push(c),
            ..a
        }),
        a.route_input_focus != 0 ==> after_key(a, KeyCode::Char(c), true) == (AppModel {
            route_address: a.route_address.push(c),
            ..a
        }),
{
}

/// `q` quits where keys are commands, and other letters never do.
pub proof fn law_quit(a: AppModel, key: KeyCode)
    requires
        !a.should_quit,
    ensures
        after_key(a, key, true).should_quit <==> key == KeyCode::Char('q') && !takes_input(a),
{
}

/// The manifest browser begins with the name, and ends with the routes, each with its
/// address and its description, in order.
pub proof fn law_manifest_lines(m: manifest::ManifestModel)
    ensures
        ({
            let lines = manifest_text(m);
            let first = lines.len() - m.routes.len();
            &&& lines.len() >= 2
            &&& lines[0] == ("Name: "@, m.name)
            &&& m.description matches Some(s) ==> lines.contains(("Description: "@, s))
            &&& m.version matches Some(s) ==> lines.contains(("Version: "@, s))
            &&& m.tags.len() > 0 ==> lines.contains(("Tags: "@, text::join_text(m.tags, ", "@)))
            &&& m.provides.len() > 0 ==> lines.contains(
                ("Provides: "@, text::join_text(m.provides, ", "@)),
            )
            &&& m.expects.len() > 0 ==> lines.contains(
                ("Expects: "@, text::join_text(m.expects, ", "@)),
            )
            &&& first >= 2
            &&& forall|i: int|
                0 <= i < m.routes.len() ==> #[trigger] lines[first + i] == (
                    ""@,
                    "  "@ + m.routes[i].address + " -> "@ + (match m.routes[i].description {
                        Some(d) => d,
                        None => ""@,
                    }),
                )
        }),
        m == manifest::empty_manifest(m.name) ==> manifest_text(m).len() == 2,
{
    let head = seq![("Name: "@, m.name), (""@, ""@)];
    let d = optional_line("Description: "@, m.description);
    let v = optional_line("Version: "@, m.version);
    let t = list_line("Tags: "@, m.tags);
    let p = list_line("Provides: "@, m.provides);
    let e = list_line("Expects: "@, m.expects);
    let r = route_lines(m.routes);
    let lines = manifest_text(m);
    assert(lines == head + d + v + t + p + e + r);
    if let Some(s) = m.description {
        assert(lines[2] == ("Description: "@, s));
    }
    let at_v = 2 + d.len() as int;
    if let Some(s) = m.version {
        assert(lines[at_v] == ("Version: "@, s));
    }
    let at_t = at_v + v.len();
    if m.tags.len() > 0 {
        assert(lines[at_t] == t[0]);
    }
    let at_p = at_t + t.len();
    if m.provides.len() > 0 {
        assert(lines[at_p] == p[0]);
    }
    let at_e = at_p + p.len();
    if m.expects.len() > 0 {
        assert(lines[at_e] == e[0]);
    }
    let at_r = at_e + e.len();
    let first = lines.len() - m.routes.len();
    assert forall|i: int| 0 <= i < m.routes.len() implies #[trigger] lines[first + i] == (
        ""@,
        "  "@ + m.routes[i].address + " -> "@ + (match m.routes[i].description {
            Some(d) => d,
            None => ""@,
        }),
    ) by {
        assert(lines[first + i] == r[2 + i]);
        assert(r[2 + i] == route_line(m.routes[i]));
    }
}

/// Of a param that was published as an action its payload is shown.
pub proof fn law_param_shows_its_payload(
    address: Seq<char>,
    signal_type: SignalType,
    timestamp: FloatValue,
    payload: ValueModel,
)
    ensures
        shown_value(protocol::action_message(address, signal_type, timestamp, payload)) == Some(
            payload,
        ),
{
}

/// A field shows its text, and while it is edited one more character.
pub proof fn law_field_shows_its_text(s: Seq<char>)
    ensures
        field_text(s, false) == s,
        field_text(s, true).len() == s.len() + 1,
        field_text(s, true).drop_last() == s,
{
    assert(field_text(s, true).drop_last() =~= s);
}

/// The tester says that an address of plain segments, taken as a pattern, matches itself
/// and no other address; without one of its inputs it says nothing yet.
pub proof fn law_tester_decides(pattern: Seq<char>, address: Seq<char>, r: RouteResult)
    requires
        pattern.len() > 0,
        pattern[0] == '/',
        forall|i: int|
            0 <= i < text::split_on(pattern.skip(1), '/').len() ==> routing::is_plain(
                #[trigger] text::split_on(pattern.skip(1), '/')[i],
            ),
    ensures
        route_outcome(pattern, pattern, r) <==> r is Matched,
        address.len() > 0 && address != pattern ==> (route_outcome(pattern, address, r) <==> r is
            NotMatched),
        route_outcome(pattern, Seq::empty(), r) <==> r is Incomplete,
        route_outcome(Seq::empty(), address, r) <==> r is Incomplete,
{
    routing::law_plain_pattern_accepts_itself(pattern, pattern);
    routing::law_plain_pattern_accepts_itself(pattern, address);
}

/// The lines of the monitors tell what they stand for: an action's line ends with its
/// address, behind its source, and a param's line begins with its address and its value
/// and ends with its source.
pub proof fn law_lines_tell_their_subject(
    time: Seq<char>,
    signal_type: SignalType,
    source_name: Seq<char>,
    address: Seq<char>,
    payload: Seq<char>,
)
    requires
        payload.len() <= PAYLOAD_WIDTH,
    ensures
        (source_name + " -> "@ + address).is_suffix_of(
            action_text(time, signal_type, source_name, address),
        ),
        ("  "@ + address + " = "@ + payload).is_prefix_of(
            param_text(address, Some(payload), source_name),
        ),
        ("(from "@ + source_name + ")"@).is_suffix_of(
            param_text(address, Some(payload), source_name),
        ),
{
    reveal_strlit("  (from ");
    reveal_strlit("(from ");
    let line = action_text(time, signal_type, source_name, address);
    let end = source_name + " -> "@ + address;
    assert(line.subrange(line.len() - end.len(), line.len() as int) =~= end);
    let line = param_text(address, Some(payload), source_name);
    let start = "  "@ + address + " = "@ + payload;
    assert(line.subrange(0, start.len() as int) =~= start);
    let end = "(from "@ + source_name + ")"@;
    assert(line.subrange(line.len() - end.len(), line.len() as int) =~= end);
}

/// Of voices in order the first has the lowest ID and the last the highest, and voices in
/// order stay so without the ones at either end.
pub proof fn law_lowest_voice_comes_first(voices: Seq<VoiceInfo>, i: int)
    requires
        ordered(voices),
        0 <= i < voices.len(),
    ensures
        voices.first().id <= voices[i].id,
        voices[i].id <= voices.last().id,
        ordered(voices.skip(i)),
        ordered(voices.take(i)),
{
}

} // verus!
