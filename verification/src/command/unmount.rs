//! Unmounting: which programs to try, and what their outcomes mean.

use vstd::prelude::*;

use crate::command::{path_debug, path_debug_text, Platform};
use vstd::utf8::{decode_utf8, valid_utf8};

verus! {

/// Arguments of the unmount command.
#[derive(Debug)]
pub struct UnmountArgs {
    /// Directory where the virtual file system is mounted.
    pub path: std::path::PathBuf,
}

/// The unmount command.
#[derive(Debug)]
pub struct UnmountCmd {}

/// The programs to try, in order, to unmount the directory `path` (given
/// as its display text), each with its arguments.
pub open spec fn unmount_plan(path: Seq<char>, platform: Platform) -> Seq<(Seq<char>, Seq<Seq<char>>)> {
    match platform {
        Platform::Linux => seq![
            ("fusermount3"@, seq!["-u"@, path]),
            ("fusermount"@, seq!["-u"@, path]),
            ("fusermount3"@, seq!["-u"@, "-z"@, path]),
            ("fusermount"@, seq!["-u"@, "-z"@, path]),
            ("umount"@, seq![path]),
            ("umount"@, seq!["-l"@, path]),
        ],
        Platform::MacOs => seq![("umount"@, seq![path]), ("diskutil"@, seq!["unmount"@, path])],
        Platform::Other => seq![("umount"@, seq![path])],
    }
}

/// A planned program and its arguments, as plain text.
pub open spec fn command_view(command: (&'static str, Vec<String>)) -> (Seq<char>, Seq<Seq<char>>) {
    (command.0@, command.1@.map_values(|a: String| a@))
}

/// The programs to try, in order, to unmount the directory `path`.
pub fn unmount_commands(path: &str, platform: Platform) -> (r: Vec<(&'static str, Vec<String>)>)
    ensures
        r@.map_values(|c: (&'static str, Vec<String>)| command_view(c)) == unmount_plan(path@, platform),
{
    let path_text = String::from_str(path);
    let mut commands: Vec<(&'static str, Vec<String>)> = Vec::new();
    match platform {
        Platform::Linux => {
            commands.push(("fusermount3", vec![String::from_str("-u"), path_text.clone()]));
            commands.push(("fusermount", vec![String::from_str("-u"), path_text.clone()]));
            commands.push(
                ("fusermount3", vec![String::from_str("-u"), String::from_str("-z"), path_text.clone()]),
            );
            commands.push(
                ("fusermount", vec![String::from_str("-u"), String::from_str("-z"), path_text.clone()]),
            );
            commands.push(("umount", vec![path_text.clone()]));
            commands.push(("umount", vec![String::from_str("-l"), path_text]));
        },
        Platform::MacOs => {
            commands.push(("umount", vec![path_text.clone()]));
            commands.push(("diskutil", vec![String::from_str("unmount"), path_text]));
        },
        Platform::Other => {
            commands.push(("umount", vec![path_text]));
        },
    }
    proof {
        let v = commands@.map_values(|c: (&'static str, Vec<String>)| command_view(c));
        let expected = unmount_plan(path@, platform);
        assert(v.len() == expected.len());
        assert forall|i: int| 0 <= i < v.len() implies v[i] == expected[i] by {
            assert(commands@[i].1@.map_values(|a: String| a@) =~= expected[i].1);
        }
        assert(v =~= expected);
    }
    commands
}


/// Whether a character has the Unicode `White_Space` property (as listed in
/// the Unicode Character Database's PropList.txt), by which
/// `char::is_whitespace` and `str::trim` go.
pub open spec fn unicode_white_space(c: char) -> bool {
    let u = c as u32;
    ||| 0x09 <= u <= 0x0d
    ||| u == 0x20
    ||| u == 0x85
    ||| u == 0xa0
    ||| u == 0x1680
    ||| 0x2000 <= u <= 0x200a
    ||| u == 0x2028
    ||| u == 0x2029
    ||| u == 0x202f
    ||| u == 0x205f
    ||| u == 0x3000
}

/// Tells whether a character has the Unicode `White_Space` property.
pub fn is_white_space(c: char) -> (r: bool)
    ensures
        r == unicode_white_space(c),
{
    let u = c as u32;
    (0x09 <= u && u <= 0x0d) || u == 0x20 || u == 0x85 || u == 0xa0 || u == 0x1680 || (0x2000 <= u
        && u <= 0x200a) || u == 0x2028 || u == 0x2029 || u == 0x202f || u == 0x205f || u == 0x3000
}

/// How `String::from_utf8_lossy` reads bytes as text.
pub uninterp spec fn utf8_lossy_text(bytes: Seq<u8>) -> Seq<char>;

/// `text[i..j]` is what is left of `text` without the white space at its
/// start and end: all before `i` and all from `j` on is white space, and
/// what is left, if anything, starts and ends with other characters.
pub open spec fn trim_bounds(text: Seq<char>, i: int, j: int) -> bool {
    &&& 0 <= i <= j <= text.len()
    &&& forall|k: int| 0 <= k < i ==> unicode_white_space(#[trigger] text[k])
    &&& forall|k: int| j <= k < text.len() ==> unicode_white_space(#[trigger] text[k])
    &&& i < j ==> !unicode_white_space(text[i]) && !unicode_white_space(text[j - 1])
}

/// `part` is `text` without the white space at its start and end.
pub open spec fn is_trim_of(part: Seq<char>, text: Seq<char>) -> bool {
    exists|i: int, j: int| #[trigger] trim_bounds(text, i, j) && part == text.subrange(i, j)
}

/// `text` without the white space at its start and end, as `str::trim`
/// gives it.
pub open spec fn trimmed(text: Seq<char>) -> Seq<char> {
    choose|part: Seq<char>| is_trim_of(part, text)
}

/// A text has one trim: two parts that are both `text` without its white
/// space at start and end are the same.
pub proof fn lemma_trim_unique(text: Seq<char>, p: Seq<char>, q: Seq<char>)
    requires
        is_trim_of(p, text),
        is_trim_of(q, text),
    ensures
        p == q,
{
    let (i, j) = choose|i: int, j: int| #[trigger] trim_bounds(text, i, j) && p == text.subrange(i, j);
    let (a, b) = choose|a: int, b: int| #[trigger] trim_bounds(text, a, b) && q == text.subrange(a, b);
    if i < j && a < b {
        if i < a {
            assert(unicode_white_space(text[i]));
        }
        if a < i {
            assert(unicode_white_space(text[a]));
        }
        if j < b {
            assert(unicode_white_space(text[b - 1]));
        }
        if b < j {
            assert(unicode_white_space(text[j - 1]));
        }
    } else if i < j {
        assert(unicode_white_space(text[i]));
    } else if a < b {
        assert(unicode_white_space(text[a]));
    } else {
        assert(p =~= q);
    }
}

/// Trims `text` as `str::trim` does: without the characters with the
/// Unicode `White_Space` property at its start and end.
pub fn trim_white_space(text: &str) -> (r: &str)
    ensures
        is_trim_of(r@, text@),
        r@ == trimmed(text@),
{
    let len: usize = text.unicode_len();
    let mut start: usize = 0;
    while start < len && is_white_space(text.get_char(start))
        invariant
            len == text@.len(),
            start <= len,
            forall|k: int| 0 <= k < start ==> unicode_white_space(#[trigger] text@[k]),
        decreases len - start,
    {
        start = start + 1;
    }
    let mut end: usize = len;
    while end > start && is_white_space(text.get_char(end - 1))
        invariant
            len == text@.len(),
            start <= end <= len,
            start < len ==> !unicode_white_space(text@[start as int]),
            forall|k: int| end <= k < len ==> unicode_white_space(#[trigger] text@[k]),
        decreases end,
    {
        end = end - 1;
    }
    let r = text.substring_char(start, end);
    proof {
        assert(trim_bounds(text@, start as int, end as int));
        assert(is_trim_of(r@, text@));
        lemma_trim_unique(text@, r@, trimmed(text@));
    }
    r
}

/// Reads bytes as text with `String::from_utf8_lossy`.
/// Claimed: the result is `utf8_lossy_text` of the bytes, a function of the
/// bytes alone, and, as the documentation says, valid UTF-8 is read as the
/// text it encodes.
#[verifier::external_body]
fn text_from_bytes(bytes: &[u8]) -> (r: String)
    ensures
        r@ == utf8_lossy_text(bytes@),
        valid_utf8(bytes@) ==> r@ == decode_utf8(bytes@),
{
    String::from_utf8_lossy(bytes).into_owned()
}

/// The text of a program's error output, as it is reported: read as UTF-8
/// (invalid sequences replaced) and trimmed.
pub open spec fn error_output_text(stderr: Seq<u8>) -> Seq<char> {
    trimmed(utf8_lossy_text(stderr))
}

/// How running one unmount program ended.
#[derive(Debug, Clone, PartialEq, Eq)]
pub enum CommandOutcome {
    /// The program ran and reported success.
    Succeeded,
    /// The program ran and failed, with its error output and the text of
    /// its exit status.
    Failed { stderr: Vec<u8>, status: String },
    /// The program is not installed.
    NotFound,
    /// The program could not be started, with the text of the error.
    SpawnFailed { error: String },
}

/// What to do after one unmount program ran.
#[derive(Debug, Clone, PartialEq, Eq)]
pub enum UnmountStep {
    /// The directory is unmounted: stop.
    Unmounted,
    /// Try the next program, remembering the last error.
    TryNext { last_error: Option<String> },
}

/// The error that a failed run of `program` leaves, if it leaves one.
pub open spec fn outcome_error(program: Seq<char>, outcome: CommandOutcome) -> Option<Seq<char>> {
    match outcome {
        CommandOutcome::Succeeded => None,
        CommandOutcome::Failed { stderr, status } => if error_output_text(stderr@).len() == 0 {
            Some(program + " exited with "@ + status@)
        } else {
            Some(program + ": "@ + error_output_text(stderr@))
        },
        CommandOutcome::NotFound => None,
        CommandOutcome::SpawnFailed { error } => Some(program + ": "@ + error@),
    }
}

/// What comes after running `program` with `outcome`, when `last_error`
/// was the last error so far: a success stops the attempts; a missing
/// program leaves the last error as it was; any other failure becomes the
/// last error.
pub fn unmount_step(last_error: Option<String>, program: &str, outcome: CommandOutcome) -> (r: UnmountStep)
    ensures
        outcome is Succeeded ==> r == UnmountStep::Unmounted,
        outcome is NotFound ==> r == (UnmountStep::TryNext { last_error }),
        !(outcome is Succeeded) && !(outcome is NotFound) ==> (r matches UnmountStep::TryNext {
            last_error: Some(e),
        } && Some(e@) == outcome_error(program@, outcome)),
{
    match outcome {
        CommandOutcome::Succeeded => UnmountStep::Unmounted,
        CommandOutcome::Failed { stderr, status } => {
            let output = text_from_bytes(stderr.as_slice());
            let output = trim_white_space(output.as_str());
            let message = if output.is_empty() {
                String::from_str(program).concat(" exited with ").concat(status.as_str())
            } else {
                String::from_str(program).concat(": ").concat(output)
            };
            UnmountStep::TryNext { last_error: Some(message) }
        },
        CommandOutcome::NotFound => UnmountStep::TryNext { last_error },
        CommandOutcome::SpawnFailed { error } => {
            let message = String::from_str(program).concat(": ").concat(error.as_str());
            UnmountStep::TryNext { last_error: Some(message) }
        },
    }
}

/// The reason given when no program unmounted the directory.
pub open spec fn failure_reason(last_error: Option<Seq<char>>) -> Seq<char> {
    match last_error {
        Some(e) => e,
        None => "no unmount command was available"@,
    }
}

/// The reason given when no program unmounted the directory: the last
/// error, or that no program was available.
pub fn unmount_failure_reason(last_error: Option<String>) -> (r: String)
    ensures
        r@ == failure_reason(
            match last_error {
                Some(e) => Some(e@),
                None => None,
            },
        ),
{
    match last_error {
        Some(e) => e,
        None => String::from_str("no unmount command was available"),
    }
}

/// The message with which unmounting `path` fails: the path, then the
/// reason.
pub open spec fn unmount_failure_text(path: std::path::PathBuf, last_error: Option<Seq<char>>) -> Seq<char> {
    "failed to unmount "@ + path_debug_text(path) + ": "@ + failure_reason(last_error)
}

/// The message with which unmounting `path` fails when no program
/// unmounted it: the path, then the last error, or that no program was
/// available.
pub fn unmount_failure_message(path: &std::path::PathBuf, last_error: Option<String>) -> (r: String)
    ensures
        r@ == unmount_failure_text(
            *path,
            match last_error {
                Some(e) => Some(e@),
                None => None,
            },
        ),
{
    let reason = unmount_failure_reason(last_error);
    String::from_str("failed to unmount ").concat(path_debug(path).as_str()).concat(": ").concat(reason.as_str())
}

} // verus!
