//! The user LaunchAgent that runs the collector: its label, the property list
//! that describes it, and what `launchctl` reports about it.
use vstd::prelude::*;

use crate::text::{
    chars_of, format_u64, lines, lines_of, parse_u32, parse_unsigned, split_once,
    split_once_chars, string_of, trim, trim_chars, views, contains, contains_chars, decimal_digits,
    concat,
};

verus! {

/// The launchd label of the collector service.
pub const LABEL: &'static str = "io.github.0x30.kedu";

/// What launchd reports about the service.
#[derive(Clone, Copy, Debug, PartialEq, Eq, Structural)]
pub enum ServiceStatus {
    Stopped,
    Loaded,
    Running { pid: Option<u32> },
}

/// The text that names a status, as the service's status line shows it.
pub open spec fn status_text(status: ServiceStatus) -> Seq<char> {
    match status {
        ServiceStatus::Stopped => "stopped"@,
        ServiceStatus::Loaded => "loaded"@,
        ServiceStatus::Running { pid: Some(pid) } => "running (pid "@ + decimal_digits(
            pid as nat,
        ) + ")"@,
        ServiceStatus::Running { pid: None } => "running"@,
    }
}

impl ServiceStatus {
    /// The service is running.
    pub fn is_running(self) -> (out: bool)
        ensures
            out == (self is Running),
    {
        match self {
            ServiceStatus::Running { .. } => true,
            _ => false,
        }
    }

    /// The service is known to launchd, running or not.
    pub fn is_loaded(self) -> (out: bool)
        ensures
            out == !(self is Stopped),
    {
        match self {
            ServiceStatus::Stopped => false,
            _ => true,
        }
    }

    /// The status as text: `stopped`, `loaded`, `running (pid N)` or `running`.
    pub fn to_text(self) -> (out: String)
        ensures
            out@ == status_text(self),
    {
        match self {
            ServiceStatus::Stopped => "stopped".to_owned(),
            ServiceStatus::Loaded => "loaded".to_owned(),
            ServiceStatus::Running { pid: Some(pid) } => {
                let mut out = "running (pid ".to_owned();
                let digits = format_u64(pid as u64);
                let digits = string_of(&digits);
                out.append(digits.as_str());
                out.append(")");
                out
            },
            ServiceStatus::Running { pid: None } => "running".to_owned(),
        }
    }
}

/// The launchd domain of a user's GUI session: `gui/<uid>`.
pub open spec fn user_domain_text(uid: u32) -> Seq<char> {
    "gui/"@ + decimal_digits(uid as nat)
}

/// The launchd domain of a user's GUI session.
pub fn user_domain(uid: u32) -> (out: String)
    ensures
        out@ == user_domain_text(uid),
{
    let mut out = "gui/".to_owned();
    let digits = string_of(&format_u64(uid as u64));
    out.append(digits.as_str());
    out
}

/// The launchd target of the service in a user's GUI session:
/// `gui/<uid>/<label>`.
pub fn service_target(uid: u32) -> (out: String)
    ensures
        out@ == user_domain_text(uid) + "/"@ + LABEL@,
{
    let mut out = user_domain(uid);
    out.append("/");
    out.append(LABEL);
    out
}

/// The value of the first line of `launchctl print` output that reads
/// `key = value`, both sides trimmed.
pub open spec fn value_in_lines(lines: Seq<Seq<char>>, key: Seq<char>) -> Option<Seq<char>>
    decreases lines.len(),
{
    if lines.len() == 0 {
        None
    } else {
        match split_once(trim(lines[0]), '=') {
            Some((candidate, value)) => if trim(candidate) == key {
                Some(trim(value))
            } else {
                value_in_lines(lines.drop_first(), key)
            },
            None => value_in_lines(lines.drop_first(), key),
        }
    }
}

/// The value that `launchctl print` output gives for `key`.
pub open spec fn launchctl_value_of(description: Seq<char>, key: Seq<char>) -> Option<Seq<char>> {
    value_in_lines(lines(description), key)
}

fn chars_equal(a: &[char], b: &[char]) -> (out: bool)
    ensures
        out == (a@ == b@),
{
    if a.len() != b.len() {
        return false;
    }
    let mut i: usize = 0;
    while i < a.len()
        invariant
            a@.len() == b@.len(),
            i <= a@.len(),
            forall|j: int| 0 <= j < i ==> a@[j] == b@[j],
        decreases a@.len() - i,
    {
        if a[i] != b[i] {
            return false;
        }
        i = i + 1;
    }
    assert(a@ =~= b@);
    true
}

/// Looks up `key` in `launchctl print` output: the first line of the form
/// `key = value` gives the trimmed value.
pub fn launchctl_value(description: &str, key: &str) -> (out: Option<String>)
    ensures
        match (out, launchctl_value_of(description@, key@)) {
            (Some(v), Some(w)) => v@ == w,
            (None, None) => true,
            _ => false,
        },
{
    let text = chars_of(description);
    let ghost wanted = key@;
    let key_chars = chars_of(key);
    let all = lines_of(&text);
    let mut i: usize = 0;
    assert(views(all@).skip(0) =~= views(all@));
    while i < all.len()
        invariant
            i <= all@.len(),
            views(all@) == lines(description@),
            key_chars@ == wanted,
            wanted == key@,
            launchctl_value_of(description@, wanted) == value_in_lines(
                views(all@).skip(i as int),
                wanted,
            ),
        decreases all@.len() - i,
    {
        let ghost rest = views(all@).skip(i as int);
        assert(rest[0] == all@[i as int]@);
        assert(rest.drop_first() =~= views(all@).skip(i + 1));
        let line = trim_chars(&all[i]);
        match split_once_chars(&line, '=') {
            Some((candidate, value)) => {
                let candidate_trimmed = trim_chars(&candidate);
                if chars_equal(&candidate_trimmed, &key_chars) {
                    let value_trimmed = trim_chars(&value);
                    assert(split_once(trim(rest[0]), '=') == Some((candidate@, value@)));
                    assert(value_in_lines(rest, wanted) == Some(trim(value@)));
                    let found = string_of(&value_trimmed);
                    assert(launchctl_value_of(description@, wanted) == Some(found@));
                    return Some(found);
                }
            },
            None => {},
        }
        i = i + 1;
    }
    assert(views(all@).skip(i as int) =~= Seq::<Seq<char>>::empty());
    None
}

/// The phrase by which `launchctl` says that a service does not exist.
pub open spec fn missing_service_phrase() -> Seq<char> {
    "Could not find service"@
}

/// Whether a failed `launchctl` command said that the service does not exist.
pub fn service_is_missing(stdout: &str, stderr: &str) -> (out: bool)
    ensures
        out == (contains(stderr@, missing_service_phrase()) || contains(
            stdout@,
            missing_service_phrase(),
        )),
{
    let phrase = chars_of("Could not find service");
    contains_chars(&chars_of(stderr), &phrase) || contains_chars(&chars_of(stdout), &phrase)
}

/// The status that `launchctl print` reports, from whether the command
/// succeeded and what it wrote; `None` when it failed for another reason
/// than a missing service.
pub open spec fn status_of_print(success: bool, stdout: Seq<char>, stderr: Seq<char>) -> Option<
    ServiceStatus,
> {
    if !success {
        if contains(stderr, missing_service_phrase()) || contains(stdout, missing_service_phrase()) {
            Some(ServiceStatus::Stopped)
        } else {
            None
        }
    } else {
        let pid = match launchctl_value_of(stdout, "pid"@) {
            Some(v) => match parse_unsigned(v, u32::MAX as nat) {
                Some(n) => Some(n as u32),
                None => None,
            },
            None => None,
        };
        if launchctl_value_of(stdout, "state"@) == Some("running"@) {
            Some(ServiceStatus::Running { pid })
        } else {
            Some(ServiceStatus::Loaded)
        }
    }
}

/// Reads the service status from the outcome of `launchctl print <target>`.
pub fn status_from_print(success: bool, stdout: &str, stderr: &str) -> (out: Option<ServiceStatus>)
    ensures
        out == status_of_print(success, stdout@, stderr@),
{
    if !success {
        if service_is_missing(stdout, stderr) {
            return Some(ServiceStatus::Stopped);
        }
        return None;
    }
    let state = launchctl_value(stdout, "state");
    let pid_text = launchctl_value(stdout, "pid");
    let pid = match pid_text {
        Some(v) => parse_u32(&chars_of(v.as_str())),
        None => None,
    };
    let running = chars_of("running");
    let is_running = match state {
        Some(s) => chars_equal(&chars_of(s.as_str()), &running),
        None => false,
    };
    if is_running {
        Some(ServiceStatus::Running { pid })
    } else {
        Some(ServiceStatus::Loaded)
    }
}

/// What a failed command's error message quotes: its trimmed standard error,
/// else its trimmed standard output, else a fixed remark.
pub open spec fn command_detail(stdout: Seq<char>, stderr: Seq<char>) -> Seq<char> {
    if trim(stderr).len() > 0 {
        trim(stderr)
    } else if trim(stdout).len() > 0 {
        trim(stdout)
    } else {
        "command returned no diagnostic output"@
    }
}

/// The detail that an error about a failed command quotes.
pub fn command_error_detail(stdout: &str, stderr: &str) -> (out: String)
    ensures
        out@ == command_detail(stdout@, stderr@),
{
    let err = trim_chars(&chars_of(stderr));
    if err.len() > 0 {
        return string_of(&err);
    }
    let outp = trim_chars(&chars_of(stdout));
    if outp.len() > 0 {
        return string_of(&outp);
    }
    "command returned no diagnostic output".to_owned()
}

/// The user id that `/usr/bin/id -u` printed.
pub fn parse_uid(stdout: &str) -> (out: Option<u32>)
    ensures
        match parse_unsigned(trim(stdout@), u32::MAX as nat) {
            Some(v) => out == Some(v as u32),
            None => out is None,
        },
{
    parse_u32(&trim_chars(&chars_of(stdout)))
}

/// The text with `&`, `<`, `>`, `"` and `'` written as XML entities.
pub open spec fn xml_escaped(s: Seq<char>) -> Seq<char>
    decreases s.len(),
{
    if s.len() == 0 {
        seq![]
    } else {
        xml_escaped(s.drop_last()) + escaped_char(s.last())
    }
}

/// One character as XML text.
pub open spec fn escaped_char(c: char) -> Seq<char> {
    if c == '&' {
        "&amp;"@
    } else if c == '<' {
        "&lt;"@
    } else if c == '>' {
        "&gt;"@
    } else if c == '"' {
        "&quot;"@
    } else if c == '\'' {
        "&apos;"@
    } else {
        seq![c]
    }
}

/// Escapes `value` for use as XML text.
pub fn xml_escape(value: &str) -> (out: String)
    ensures
        out@ == xml_escaped(value@),
{
    let chars = chars_of(value);
    let mut out = String::new();
    let mut i: usize = 0;
    while i < chars.len()
        invariant
            i <= chars@.len(),
            chars@ == value@,
            out@ == xml_escaped(chars@.take(i as int)),
        decreases chars@.len() - i,
    {
        let c = chars[i];
        let ghost before = out@;
        if c == '&' {
            out.append("&amp;");
        } else if c == '<' {
            out.append("&lt;");
        } else if c == '>' {
            out.append("&gt;");
        } else if c == '"' {
            out.append("&quot;");
        } else if c == '\'' {
            out.append("&apos;");
        } else {
            let one = string_of(&[c]);
            out.append(one.as_str());
            assert([c]@ =~= seq![c]);
        }
        assert(chars@.take(i + 1).drop_last() =~= chars@.take(i as int));
        i = i + 1;
    }
    assert(chars@.take(i as int) =~= chars@);
    out
}

/// The head of the property list, up to the program path.
pub const PLIST_HEAD: &'static str = r#"<?xml version="1.0" encoding="UTF-8"?>
<!DOCTYPE plist PUBLIC "-//Apple//DTD PLIST 1.0//EN" "http://www.apple.com/DTDs/PropertyList-1.0.dtd">
<plist version="1.0">
<dict>
    <key>Label</key>
    <string>"#;

/// The property list between the label and the program path.
pub const PLIST_PROGRAM: &'static str = r#"</string>
    <key>ProgramArguments</key>
    <array>
        <string>"#;

/// The property list between the program path and the standard output log.
pub const PLIST_POLICY: &'static str = r#"</string>
        <string>daemon</string>
    </array>
    <key>RunAtLoad</key>
    <true/>
    <key>KeepAlive</key>
    <true/>
    <key>ProcessType</key>
    <string>Background</string>
    <key>StandardOutPath</key>
    <string>"#;

/// The property list between the standard output log and the error log.
pub const PLIST_STDERR: &'static str = r#"</string>
    <key>StandardErrorPath</key>
    <string>"#;

/// The tail of the property list.
pub const PLIST_TAIL: &'static str = r#"</string>
</dict>
</plist>
"#;

/// The LaunchAgent property list: the service runs `<executable> daemon` at
/// load, is kept alive, and logs to the two paths; every path is XML-escaped.
pub open spec fn plist_text(executable: Seq<char>, stdout_log: Seq<char>, stderr_log: Seq<char>) -> Seq<char> {
    PLIST_HEAD@ + LABEL@ + PLIST_PROGRAM@ + xml_escaped(executable) + PLIST_POLICY@
        + xml_escaped(stdout_log) + PLIST_STDERR@ + xml_escaped(stderr_log) + PLIST_TAIL@
}

/// Writes the LaunchAgent property list for the given executable and logs.
pub fn render_plist(executable: &str, stdout_log: &str, stderr_log: &str) -> (out: String)
    ensures
        out@ == plist_text(executable@, stdout_log@, stderr_log@),
{
    let executable = xml_escape(executable);
    let stdout_log = xml_escape(stdout_log);
    let stderr_log = xml_escape(stderr_log);
    let mut out = String::new();
    out.append(PLIST_HEAD);
    out.append(LABEL);
    out.append(PLIST_PROGRAM);
    out.append(executable.as_str());
    out.append(PLIST_POLICY);
    out.append(stdout_log.as_str());
    out.append(PLIST_STDERR);
    out.append(stderr_log.as_str());
    out.append(PLIST_TAIL);
    out
}

} // verus!

verus! {

/// Escaped text holds none of `<`, `>`, `"` and `'`: paths cannot break out
/// of the property list's strings.
pub proof fn lemma_escaped_has_no_markup(s: Seq<char>)
    ensures
        forall|i: int|
            0 <= i < xml_escaped(s).len() ==> {
                let c = #[trigger] xml_escaped(s)[i];
                c != '<' && c != '>' && c != '"' && c != '\''
            },
    decreases s.len(),
{
    if s.len() > 0 {
        lemma_escaped_has_no_markup(s.drop_last());
        let prefix = xml_escaped(s.drop_last());
        let tail = escaped_char(s.last());
        reveal_strlit("&amp;");
        reveal_strlit("&lt;");
        reveal_strlit("&gt;");
        reveal_strlit("&quot;");
        reveal_strlit("&apos;");
        assert forall|i: int| 0 <= i < xml_escaped(s).len() implies {
            let c = #[trigger] xml_escaped(s)[i];
            c != '<' && c != '>' && c != '"' && c != '\''
        } by {
            if i >= prefix.len() {
                assert(xml_escaped(s)[i] == tail[i - prefix.len()]);
            } else {
                assert(xml_escaped(s)[i] == prefix[i]);
            }
        }
    }
}

/// Text without any of the five special characters is written as it is.
pub proof fn lemma_plain_text_unescaped(s: Seq<char>)
    requires
        forall|i: int|
            0 <= i < s.len() ==> {
                let c = #[trigger] s[i];
                c != '&' && c != '<' && c != '>' && c != '"' && c != '\''
            },
    ensures
        xml_escaped(s) == s,
    decreases s.len(),
{
    if s.len() > 0 {
        lemma_plain_text_unescaped(s.drop_last());
        assert(s.drop_last().push(s.last()) =~= s);
    }
}

/// A failed `launchctl print` that says the service is missing means the
/// service is stopped; a successful one never does.
pub proof fn lemma_missing_service_is_stopped(success: bool, stdout: Seq<char>, stderr: Seq<char>)
    ensures
        !success && contains(stderr, missing_service_phrase()) ==> status_of_print(
            success,
            stdout,
            stderr,
        ) == Some(ServiceStatus::Stopped),
        success ==> status_of_print(success, stdout, stderr) != Some(ServiceStatus::Stopped),
{
}

} // verus!


verus! {

proof fn lemma_window(
    pre: Seq<char>,
    left: Seq<char>,
    mid: Seq<char>,
    right: Seq<char>,
    post: Seq<char>,
    a: Seq<char>,
    b: Seq<char>,
)
    requires
        a.len() <= left.len(),
        left.skip(left.len() - a.len()) == a,
        b.len() <= right.len(),
        right.take(b.len() as int) == b,
    ensures
        contains(pre + left + mid + right + post, a + mid + b),
{
    let hay = pre + left + mid + right + post;
    let i = pre.len() + left.len() - a.len();
    let needle = a + mid + b;
    assert(hay.subrange(i, i + needle.len()) =~= needle) by {
        assert forall|k: int| 0 <= k < needle.len() implies hay.subrange(i, i + needle.len())[k]
            == needle[k] by {
            if k < a.len() {
                assert(a[k] == left.skip(left.len() - a.len())[k]);
            } else if k < a.len() + mid.len() {
            } else {
                assert(b[k - a.len() - mid.len()] == right.take(b.len() as int)[k - a.len()
                    - mid.len()]);
            }
        }
    }
    assert(crate::text::occurs_at(hay, needle, i));
}

/// The property list runs the executable, XML-escaped, with the argument
/// `daemon`, names the standard output log (XML-escaped) as
/// `StandardOutPath` and the error log (XML-escaped) as `StandardErrorPath`.
pub proof fn lemma_plist_names_program_and_logs(
    executable: Seq<char>,
    stdout_log: Seq<char>,
    stderr_log: Seq<char>,
)
    ensures
        contains(
            plist_text(executable, stdout_log, stderr_log),
            "<string>"@ + xml_escaped(executable) + "</string>\n        <string>daemon</string>"@,
        ),
        contains(
            plist_text(executable, stdout_log, stderr_log),
            "<key>StandardOutPath</key>\n    <string>"@ + xml_escaped(stdout_log) + "</string>"@,
        ),
        contains(
            plist_text(executable, stdout_log, stderr_log),
            "<key>StandardErrorPath</key>\n    <string>"@ + xml_escaped(stderr_log) + "</string>"@,
        ),
{
    reveal_strlit("</string>
    <key>ProgramArguments</key>
    <array>
        <string>");
    reveal_strlit("</string>
        <string>daemon</string>
    </array>
    <key>RunAtLoad</key>
    <true/>
    <key>KeepAlive</key>
    <true/>
    <key>ProcessType</key>
    <string>Background</string>
    <key>StandardOutPath</key>
    <string>");
    reveal_strlit("</string>
    <key>StandardErrorPath</key>
    <string>");
    reveal_strlit("</string>
</dict>
</plist>
");
    reveal_strlit("<string>");
    reveal_strlit("</string>\n        <string>daemon</string>");
    reveal_strlit("<key>StandardOutPath</key>\n    <string>");
    reveal_strlit("</string>");
    reveal_strlit("<key>StandardErrorPath</key>\n    <string>");
    assert(PLIST_PROGRAM@ == "</string>
    <key>ProgramArguments</key>
    <array>
        <string>"@);
    assert(PLIST_POLICY@ == "</string>
        <string>daemon</string>
    </array>
    <key>RunAtLoad</key>
    <true/>
    <key>KeepAlive</key>
    <true/>
    <key>ProcessType</key>
    <string>Background</string>
    <key>StandardOutPath</key>
    <string>"@);
    assert(PLIST_STDERR@ == "</string>
    <key>StandardErrorPath</key>
    <string>"@);
    assert(PLIST_TAIL@ == "</string>
</dict>
</plist>
"@);
    let e = xml_escaped(executable);
    let o = xml_escaped(stdout_log);
    let r = xml_escaped(stderr_log);
    let text = plist_text(executable, stdout_log, stderr_log);
    let head = PLIST_HEAD@ + LABEL@;
    // The program path.
    let a1 = "<string>"@;
    let b1 = "</string>\n        <string>daemon</string>"@;
    assert(PLIST_PROGRAM@.skip(PLIST_PROGRAM@.len() - a1.len()) =~= a1);
    assert(PLIST_POLICY@.take(b1.len() as int) =~= b1);
    assert(text =~= head + PLIST_PROGRAM@ + e + PLIST_POLICY@ + (o + PLIST_STDERR@ + r + PLIST_TAIL@));
    lemma_window(head, PLIST_PROGRAM@, e, PLIST_POLICY@, o + PLIST_STDERR@ + r + PLIST_TAIL@, a1, b1);
    // The standard output log.
    let a2 = "<key>StandardOutPath</key>\n    <string>"@;
    let b2 = "</string>"@;
    assert(PLIST_POLICY@.skip(PLIST_POLICY@.len() - a2.len()) =~= a2);
    assert(PLIST_STDERR@.take(b2.len() as int) =~= b2);
    assert(text =~= (head + PLIST_PROGRAM@ + e) + PLIST_POLICY@ + o + PLIST_STDERR@ + (r + PLIST_TAIL@));
    lemma_window(head + PLIST_PROGRAM@ + e, PLIST_POLICY@, o, PLIST_STDERR@, r + PLIST_TAIL@, a2, b2);
    // The error log.
    let a3 = "<key>StandardErrorPath</key>\n    <string>"@;
    assert(PLIST_STDERR@.skip(PLIST_STDERR@.len() - a3.len()) =~= a3);
    assert(PLIST_TAIL@.take(b2.len() as int) =~= b2);
    assert(text =~= (head + PLIST_PROGRAM@ + e + PLIST_POLICY@ + o) + PLIST_STDERR@ + r + PLIST_TAIL@ + Seq::<char>::empty());
    lemma_window(head + PLIST_PROGRAM@ + e + PLIST_POLICY@ + o, PLIST_STDERR@, r, PLIST_TAIL@, Seq::<char>::empty(), a3, b2);
}

} // verus!
