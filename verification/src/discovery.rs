//! Local hub discovery by a port file.
//!
//! The hub writes a small text file that holds its port to a well-known place.
//! Clients read that file before they fall back to the default port.
//!
//! * Linux: `$XDG_RUNTIME_DIR/ensemble/hub.port`, else
//!   `/tmp/ensemble-hub-{uid}.port`.
//! * macOS: `$TMPDIR/ensemble-hub.port`.
//! * Windows: `%LOCALAPPDATA%\Ensemble\hub.port`.
use vstd::prelude::*;

use crate::cli;
use crate::text;

verus! {

/// A path: a base, and the parts that are joined to it in order.
#[derive(Debug)]
pub struct PortFilePath {
    pub base: String,
    pub parts: Vec<String>,
}

/// A path as character sequences.
pub struct PathModel {
    pub base: Seq<char>,
    pub parts: Seq<Seq<char>>,
}

impl View for PortFilePath {
    type V = PathModel;

    open spec fn view(&self) -> PathModel {
        PathModel { base: self.base@, parts: text::views(self.parts@) }
    }
}

/// The operating systems that have a default place for the port file.
#[derive(Clone, Copy, Debug, PartialEq, Eq, Structural)]
pub enum Platform {
    Linux,
    MacOs,
    Windows,
}

/// What the place of the port file depends on.
#[derive(Debug)]
pub struct Surroundings {
    /// Set by [`set_port_file_path`].
    pub override_path: Option<String>,
    /// `ENSEMBLE_HUB_PORT_FILE`.
    pub port_file: Option<String>,
    /// `XDG_RUNTIME_DIR`.
    pub runtime_dir: Option<String>,
    /// `TMPDIR`.
    pub tmpdir: Option<String>,
    /// `LOCALAPPDATA`.
    pub local_app_data: Option<String>,
    /// `USERPROFILE`.
    pub user_profile: Option<String>,
    /// What `/proc/self/status` holds, where it can be read.
    pub process_status: Option<String>,
    pub platform: Platform,
}

/// A path without joined parts.
pub open spec fn plain_path(base: Seq<char>) -> PathModel {
    PathModel { base, parts: Seq::empty() }
}

/// The default place of the port file.
pub open spec fn default_path(s: Surroundings) -> PathModel {
    match s.platform {
        Platform::Linux => match s.runtime_dir {
            Some(dir) => PathModel { base: dir@, parts: seq!["ensemble"@, "hub.port"@] },
            None => plain_path(
                "/tmp/ensemble-hub-"@ + text::decimal(unix_uid(text::opt_view(s.process_status)) as nat)
                    + ".port"@,
            ),
        },
        Platform::MacOs => PathModel {
            base: match s.tmpdir {
                Some(dir) => dir@,
                None => "/tmp"@,
            },
            parts: seq!["ensemble-hub.port"@],
        },
        Platform::Windows => PathModel {
            base: match s.local_app_data {
                Some(dir) => dir@,
                None => match s.user_profile {
                    Some(dir) => dir@ + "\\AppData\\Local"@,
                    None => "."@,
                },
            },
            parts: seq!["Ensemble"@, "hub.port"@],
        },
    }
}

/// The place of the port file: the override, else the environment variable,
/// else the platform's default.
pub open spec fn port_file_path(s: Surroundings) -> PathModel {
    match s.override_path {
        Some(p) => plain_path(p@),
        None => match s.port_file {
            Some(p) => plain_path(p@),
            None => default_path(s),
        },
    }
}

/// Sets a custom path for the hub port file. It takes precedence over the
/// environment variable and the platform's default; `None` clears it.
pub fn set_port_file_path(surroundings: &mut Surroundings, path: Option<String>)
    ensures
        *final(surroundings) == (Surroundings { override_path: path, ..*old(surroundings) }),
{
    surroundings.override_path = path;
}

fn plain(base: String) -> (r: PortFilePath)
    ensures
        r@ == plain_path(base@),
{
    let r = PortFilePath { base, parts: Vec::new() };
    assert(text::views(r.parts@) =~= Seq::empty());
    r
}

fn joined(base: String, first: &str, second: &str) -> (r: PortFilePath)
    ensures
        r@ == (PathModel { base: base@, parts: seq![first@, second@] }),
{
    let mut parts: Vec<String> = Vec::new();
    parts.push(first.to_owned());
    parts.push(second.to_owned());
    assert(text::views(parts@) =~= seq![first@, second@]);
    PortFilePath { base, parts }
}

/// The path of the hub port file.
pub fn get_port_file_path(s: &Surroundings) -> (r: PortFilePath)
    ensures
        r@ == port_file_path(*s),
{
    if let Some(p) = &s.override_path {
        return plain(p.as_str().to_owned());
    }
    if let Some(p) = &s.port_file {
        return plain(p.as_str().to_owned());
    }
    match s.platform {
        Platform::Linux => match &s.runtime_dir {
            Some(dir) => joined(dir.as_str().to_owned(), "ensemble", "hub.port"),
            None => {
                let uid: u32 = get_unix_uid(&s.process_status);
                let digits = text::number_string(uid as u64);
                let mut base = "/tmp/ensemble-hub-".to_owned();
                base.append(digits.as_str());
                base.append(".port");
                plain(base)
            },
        },
        Platform::MacOs => {
            let base = match &s.tmpdir {
                Some(dir) => dir.as_str().to_owned(),
                None => "/tmp".to_owned(),
            };
            let mut parts: Vec<String> = Vec::new();
            parts.push("ensemble-hub.port".to_owned());
            assert(text::views(parts@) =~= seq!["ensemble-hub.port"@]);
            PortFilePath { base, parts }
        },
        Platform::Windows => {
            let base = match &s.local_app_data {
                Some(dir) => dir.as_str().to_owned(),
                None => match &s.user_profile {
                    Some(dir) => {
                        let mut b = dir.as_str().to_owned();
                        b.append("\\AppData\\Local");
                        b
                    },
                    None => ".".to_owned(),
                },
            };
            joined(base, "Ensemble", "hub.port")
        },
    }
}

/// The first of the lines that begins with `Uid:`.
pub open spec fn uid_line(lines: Seq<Seq<char>>) -> Option<Seq<char>>
    decreases lines.len(),
{
    if lines.len() == 0 {
        None
    } else if text::has_prefix(lines[0], "Uid:"@) {
        Some(lines[0])
    } else {
        uid_line(lines.skip(1))
    }
}

/// The user id in a process status: the second word of its `Uid:` line, 0
/// where there is none.
pub open spec fn unix_uid(status: Option<Seq<char>>) -> u32 {
    match status {
        Some(s) => match uid_line(text::split_on(s, '\n')) {
            Some(line) => {
                let w = text::words(line);
                if w.len() < 2 {
                    0
                } else {
                    match text::number_text(w[1], u32::MAX as nat) {
                        Some(n) => n as u32,
                        None => 0,
                    }
                }
            },
            None => 0,
        },
        None => 0,
    }
}

/// The user id that a process status states.
pub fn get_unix_uid(status: &Option<String>) -> (r: u32)
    ensures
        r == unix_uid(text::opt_view(*status)),
{
    match status {
        None => 0,
        Some(s) => {
            let chars = text::chars_of(s.as_str());
            let lines = text::split(&chars, 0, '\n');
            let ghost all = text::split_on(s@, '\n');
            assert(chars@.skip(0) =~= s@);
            let prefix = text::chars_of("Uid:");
            let mut i: usize = 0;
            assert(all.skip(0) =~= all);
            while i < lines.len()
                invariant
                    i <= lines@.len(),
                    *status == Some(*s),
                    all == text::split_on(s@, '\n'),
                    all == text::views(lines@),
                    prefix@ == "Uid:"@,
                    uid_line(all) == uid_line(all.skip(i as int)),
                decreases lines@.len() - i,
            {
                let line = text::chars_of(lines[i].as_str());
                assert(all.skip(i as int)[0] == line@);
                if text::starts_with(&line, &prefix) {
                    let w = text::split_words(&line);
                    if w.len() < 2 {
                        return 0;
                    }
                    assert(text::words(line@)[1] == w@[1]@);
                    let second = text::chars_of(w[1].as_str());
                    return match text::parse_number(&second, u32::MAX as u64) {
                        Some(n) => n as u32,
                        None => 0,
                    };
                }
                assert(all.skip(i as int).skip(1) =~= all.skip(i as int + 1));
                i = i + 1;
            }
            0
        },
    }
}

/// The text of a port file.
pub open spec fn port_file_text(port: u16) -> Seq<char> {
    text::decimal(port as nat).push('\n')
}

/// What a port file holds for a port.
pub fn write_port_file(port: u16) -> (r: String)
    ensures
        r@ == port_file_text(port),
{
    let mut out = text::number_string(port as u64);
    out.push('\n');
    out
}

/// The port that a port file's text gives, blank space around it aside.
pub open spec fn port_in_file(content: Option<Seq<char>>) -> Option<u16> {
    match content {
        Some(s) => cli::port_text(text::trimmed(s)),
        None => None,
    }
}

/// The port that a port file holds. `None` if the file could not be read, is
/// empty, or holds malformed data.
pub fn read_port_file(content: &Option<String>) -> (r: Option<u16>)
    ensures
        r == port_in_file(text::opt_view(*content)),
{
    match content {
        None => None,
        Some(s) => {
            let chars = text::chars_of(s.as_str());
            let t = text::trim(&chars);
            match text::parse_number(&t, u16::MAX as u64) {
                Some(n) => Some(n as u16),
                None => None,
            }
        },
    }
}

/// Whether a port file is left over from an earlier run: it names a port that
/// is no longer bound. Such a file is to be removed.
pub fn cleanup_stale_port_file(port: Option<u16>, bound: bool) -> (r: bool)
    ensures
        r == (port is Some && !bound),
{
    match port {
        Some(_) => !bound,
        None => false,
    }
}

/// Reading a port file gives the port that was written.
pub proof fn law_port_file_round_trip(port: u16)
    ensures
        port_in_file(Some(port_file_text(port))) == Some(port),
{
    text::lemma_trimmed_number(port as nat, seq!['\n']);
    assert(port_file_text(port) =~= text::decimal(port as nat) + seq!['\n']);
    text::law_number_round_trip(port as nat, u16::MAX as nat);
}

/// The override comes before the environment variable, which comes before the
/// default; clearing the override gives back the place from before.
pub proof fn law_path_priority(s: Surroundings, path: String)
    ensures
        port_file_path(Surroundings { override_path: Some(path), ..s }) == plain_path(path@),
        s.override_path is None && s.port_file is Some ==> port_file_path(s) == plain_path(
            s.port_file->0@,
        ),
        s.override_path is None && s.port_file is None ==> port_file_path(s) == default_path(s),
        s.override_path is None ==> port_file_path(
            Surroundings { override_path: None, ..Surroundings { override_path: Some(path), ..s } },
        ) == port_file_path(s),
{
}

/// The user id is read from the first line that begins with `Uid:`: the number behind the
/// blank character that follows it, whatever stands behind another one.
pub proof fn law_user_id_is_read(
    status: Seq<char>,
    at: int,
    uid: u32,
    gap: char,
    tail: Seq<char>,
)
    requires
        0 <= at < text::split_on(status, '\n').len(),
        text::split_on(status, '\n')[at] == "Uid:"@.push(gap) + (text::decimal(uid as nat) + tail),
        text::is_blank(gap),
        tail.len() > 0 ==> text::is_blank(tail[0]),
        forall|i: int|
            0 <= i < at ==> !text::has_prefix(
                #[trigger] text::split_on(status, '\n')[i],
                "Uid:"@,
            ),
    ensures
        unix_uid(Some(status)) == uid,
{
    let lines = text::split_on(status, '\n');
    let line = lines[at];
    let number = text::decimal(uid as nat);
    reveal_strlit("Uid:");
    assert(line.take(4) =~= "Uid:"@);
    lemma_first_uid_line(lines, at);
    text::law_number_round_trip(uid as nat, u32::MAX as nat);
    text::lemma_decimal_is_a_word(uid as nat);
    assert forall|i: int| 0 <= i < 4 implies !text::is_blank(#[trigger] "Uid:"@[i]) by {
        text::law_common_blanks("Uid:"@[i]);
    }
    text::law_words_are_parted_by_blanks("Uid:"@, gap, number + tail);
    if tail.len() == 0 {
        assert(number + tail =~= number);
        text::law_words_are_parted_by_blanks(number, ' ', Seq::empty());
    } else {
        assert(number + tail =~= number.push(tail[0]) + tail.skip(1));
        text::law_words_are_parted_by_blanks(number, tail[0], tail.skip(1));
    }
    assert(text::words(line)[1] == text::words(number + tail)[0]);
}

proof fn lemma_first_uid_line(lines: Seq<Seq<char>>, at: int)
    requires
        0 <= at < lines.len(),
        text::has_prefix(lines[at], "Uid:"@),
        forall|i: int| 0 <= i < at ==> !text::has_prefix(#[trigger] lines[i], "Uid:"@),
    ensures
        uid_line(lines) == Some(lines[at]),
    decreases at,
{
    if at > 0 {
        let rest = lines.skip(1);
        assert(!text::has_prefix(lines[0], "Uid:"@));
        assert forall|i: int| 0 <= i < at - 1 implies !text::has_prefix(
            #[trigger] rest[i],
            "Uid:"@,
        ) by {
            assert(rest[i] == lines[i + 1]);
        }
        lemma_first_uid_line(rest, at - 1);
    }
}

/// Blank space round the number of a port file does not matter, and a file without a port
/// in it gives none.
pub proof fn law_port_file_may_be_padded(front: Seq<char>, n: nat, back: Seq<char>)
    requires
        forall|i: int| 0 <= i < front.len() ==> text::is_blank(#[trigger] front[i]),
        forall|i: int| 0 <= i < back.len() ==> text::is_blank(#[trigger] back[i]),
    ensures
        port_in_file(Some(front + text::decimal(n) + back)) == (if n <= u16::MAX {
            Some(n as u16)
        } else {
            None
        }),
        port_in_file(None) is None,
    decreases front.len(),
{
    if front.len() == 0 {
        text::lemma_trimmed_number(n, back);
        assert(front + text::decimal(n) + back =~= text::decimal(n) + back);
        text::law_number_round_trip(n, n);
        if n <= u16::MAX {
            text::law_number_round_trip(n, u16::MAX as nat);
        }
    } else {
        let all = front + text::decimal(n) + back;
        assert(text::is_blank(front[0]));
        assert(all.skip(1) =~= front.skip(1) + text::decimal(n) + back);
        assert forall|i: int| 0 <= i < front.skip(1).len() implies text::is_blank(
            #[trigger] front.skip(1)[i],
        ) by {
            assert(front.skip(1)[i] == front[i + 1]);
        }
        law_port_file_may_be_padded(front.skip(1), n, back);
        assert(text::trim_start_of(all) == text::trim_start_of(all.skip(1)));
    }
}

/// Without settings, a Linux machine keeps the port file in the runtime directory of the
/// user, or else in the directory for temporary files, under a name of that user.
pub proof fn law_default_path_on_linux(s: Surroundings, dir: String)
    requires
        s.platform is Linux,
        s.override_path is None,
        s.port_file is None,
    ensures
        port_file_path(Surroundings { runtime_dir: Some(dir), ..s }) == (PathModel {
            base: dir@,
            parts: seq!["ensemble"@, "hub.port"@],
        }),
        port_file_path(Surroundings { runtime_dir: None, ..s }) == plain_path(
            "/tmp/ensemble-hub-"@ + text::decimal(
                unix_uid(text::opt_view(s.process_status)) as nat,
            ) + ".port"@,
        ),
{
}

} // verus!
