use crate::config::PidMonitorConfig;
use crate::event_bus::ProcessEvent;
use crate::monitor::Monitor;
use vstd::prelude::*;
use vstd::string::*;

verus! {

/// What the system said when the process was probed with signal 0.
#[derive(Debug, Clone, Copy, PartialEq, Eq)]
pub enum ProbeOutcome {
    /// The process is there.
    Alive,
    /// There is no such process.
    NoSuchProcess,
    /// The probe failed for another reason, such as missing permission.
    OtherError,
}

/// Whether `c` is white space, as Unicode defines it.
pub open spec fn is_space(c: char) -> bool {
    let u = c as u32;
    ||| 0x09 <= u <= 0x0D
    ||| u == 0x20
    ||| u == 0x85
    ||| u == 0xA0
    ||| u == 0x1680
    ||| 0x2000 <= u <= 0x200A
    ||| u == 0x2028
    ||| u == 0x2029
    ||| u == 0x202F
    ||| u == 0x205F
    ||| u == 0x3000
}

/// Whether `c` is a decimal digit.
pub open spec fn is_digit(c: char) -> bool {
    '0' <= c <= '9'
}

/// Where the text of `s` starts, white space passed over.
pub open spec fn text_start(s: Seq<char>) -> int
    decreases s.len(),
{
    if s.len() > 0 && is_space(s[0]) {
        1 + text_start(s.drop_first())
    } else {
        0
    }
}

/// Where the text of `s` ends, white space at the end left out.
pub open spec fn text_end(s: Seq<char>) -> int
    decreases s.len(),
{
    if s.len() > 0 && is_space(s.last()) {
        text_end(s.drop_last())
    } else {
        s.len() as int
    }
}

/// `s` without the white space at its start and at its end.
pub open spec fn trimmed(s: Seq<char>) -> Seq<char> {
    if text_start(s) >= text_end(s) {
        Seq::empty()
    } else {
        s.subrange(text_start(s), text_end(s))
    }
}

/// Whether `s` holds decimal digits only.
pub open spec fn all_digits(s: Seq<char>) -> bool {
    forall|i: int| 0 <= i < s.len() ==> is_digit(#[trigger] s[i])
}

/// The number that the decimal digits `s` spell.
pub open spec fn decimal_value(s: Seq<char>) -> nat
    decreases s.len(),
{
    if s.len() == 0 {
        0
    } else {
        decimal_value(s.drop_last()) * 10 + (s.last() as u32 - '0' as u32) as nat
    }
}

/// The PID that a PID file holds: a decimal number from 1 to `i32::MAX`,
/// with or without a plus sign before it and white space around it.
pub open spec fn pid_of(content: Seq<char>) -> Option<i32> {
    let text = trimmed(content);
    if text.len() > 0 && text[0] == '+' {
        positive_number(text.drop_first())
    } else {
        positive_number(text)
    }
}

/// The number from 1 to `i32::MAX` that the decimal digits `digits` spell,
/// if they spell one.
pub open spec fn positive_number(digits: Seq<char>) -> Option<i32> {
    if digits.len() > 0 && all_digits(digits) && 0 < decimal_value(digits) <= i32::MAX {
        Some(decimal_value(digits) as i32)
    } else {
        None
    }
}

proof fn lemma_text_start(s: Seq<char>, start: int)
    requires
        0 <= start <= s.len(),
        forall|i: int| 0 <= i < start ==> is_space(s[i]),
        start < s.len() ==> !is_space(s[start]),
    ensures
        text_start(s) == start,
    decreases s.len(),
{
    if start > 0 {
        let rest = s.drop_first();
        assert forall|i: int| 0 <= i < start - 1 implies is_space(rest[i]) by {
            assert(rest[i] == s[i + 1]);
        }
        lemma_text_start(rest, start - 1);
    }
}

proof fn lemma_text_end(s: Seq<char>, end: int)
    requires
        0 <= end <= s.len(),
        forall|i: int| end <= i < s.len() ==> is_space(s[i]),
        end > 0 ==> !is_space(s[end - 1]),
    ensures
        text_end(s) == end,
    decreases s.len(),
{
    if end < s.len() {
        lemma_text_end(s.drop_last(), end);
    }
}

proof fn lemma_text_end_bound(s: Seq<char>, end: int)
    requires
        0 <= end <= s.len(),
        forall|i: int| end <= i < s.len() ==> is_space(s[i]),
    ensures
        text_end(s) <= end,
    decreases s.len(),
{
    if s.len() > 0 && is_space(s.last()) {
        lemma_text_end_bound(
            s.drop_last(),
            if end < s.len() {
                end
            } else {
                s.len() - 1
            },
        );
    }
}

proof fn lemma_decimal_value_grows(s: Seq<char>, k: int)
    requires
        0 <= k <= s.len(),
        all_digits(s),
    ensures
        decimal_value(s.take(k)) <= decimal_value(s),
    decreases s.len() - k,
{
    if k < s.len() {
        assert(s.take(k + 1).drop_last() =~= s.take(k));
        lemma_decimal_value_grows(s, k + 1);
    } else {
        assert(s.take(k) =~= s);
    }
}

/// Whether `c` is white space.
pub fn char_is_space(c: char) -> (r: bool)
    ensures
        r == is_space(c),
{
    let u: u32 = c as u32;
    (0x09 <= u && u <= 0x0D) || u == 0x20 || u == 0x85 || u == 0xA0 || u == 0x1680 || (0x2000 <= u
        && u <= 0x200A) || u == 0x2028 || u == 0x2029 || u == 0x202F || u == 0x205F || u == 0x3000
}

/// Reads the PID that a PID file holds; `None` where it holds none.
pub fn parse_pid(content: &str) -> (pid: Option<i32>)
    ensures
        pid == pid_of(content@),
{
    let total: usize = content.unicode_len();
    let mut start: usize = 0;
    while start < total && char_is_space(content.get_char(start))
        invariant
            total == content@.len(),
            start <= total,
            forall|i: int| 0 <= i < start ==> is_space(content@[i]),
        decreases total - start,
    {
        start += 1;
    }
    let mut end: usize = total;
    while end > start && char_is_space(content.get_char(end - 1))
        invariant
            total == content@.len(),
            start <= end <= total,
            forall|i: int| end <= i < total ==> is_space(content@[i]),
        decreases end,
    {
        end -= 1;
    }
    proof {
        lemma_text_start(content@, start as int);
        lemma_text_end_bound(content@, end as int);
    }
    if end <= start {
        return None;
    }
    proof {
        lemma_text_end(content@, end as int);
    }
    let ghost text = content@.subrange(start as int, end as int);
    let mut at: usize = start;
    if content.get_char(at) == '+' {
        at += 1;
    }
    let ghost digits = content@.subrange(at as int, end as int);
    proof {
        assert(trimmed(content@) == text);
        if text[0] == '+' {
            assert(text.drop_first() =~= digits);
        } else {
            assert(text =~= digits);
        }
        assert(pid_of(content@) == positive_number(digits));
    }
    if at == end {
        return None;
    }
    let first: usize = at;
    let mut value: u64 = 0;
    proof {
        assert(digits.take(0) =~= Seq::<char>::empty());
    }
    while at < end
        invariant
            total == content@.len(),
            first <= at <= end <= total,
            first < end,
            digits == content@.subrange(first as int, end as int),
            pid_of(content@) == positive_number(digits),
            forall|i: int| 0 <= i < at - first ==> is_digit(#[trigger] digits[i]),
            value == decimal_value(digits.take(at - first)),
            value <= i32::MAX,
        decreases end - at,
    {
        let c = content.get_char(at);
        let ghost seen = digits.take(at - first);
        proof {
            assert(digits[at - first] == c);
            assert(digits.take(at - first + 1).drop_last() =~= seen);
            assert(digits.take(at - first + 1).last() == c);
        }
        if !('0' <= c && c <= '9') {
            proof {
                assert(!is_digit(digits[at - first]));
            }
            return None;
        }
        let digit: u64 = (c as u32 - '0' as u32) as u64;
        value = value * 10 + digit;
        if value > i32::MAX as u64 {
            proof {
                if all_digits(digits) {
                    lemma_decimal_value_grows(digits, at - first + 1);
                }
            }
            return None;
        }
        at += 1;
    }
    proof {
        assert(digits.take(end - first) =~= digits);
    }
    if value == 0 {
        None
    } else {
        Some(value as i32)
    }
}

/// Watches a process through its PID file.
pub struct PidMonitor {
    config: PidMonitorConfig,
}

impl View for PidMonitor {
    type V = PidMonitorConfig;

    closed spec fn view(&self) -> PidMonitorConfig {
        self.config
    }
}

impl PidMonitor {
    /// A monitor for the process that `config` describes.
    pub fn new(config: PidMonitorConfig) -> (r: Self)
        ensures
            r@ == config,
    {
        PidMonitor { config }
    }

    /// Seconds between two checks.
    pub fn check_interval(&self) -> (secs: u64)
        ensures
            secs == self@.interval_secs,
    {
        self.config.interval_secs
    }

    /// The PID file to read.
    pub fn pid_file_path(&self) -> (path: &String)
        ensures
            *path == self@.pid_file_path,
    {
        &self.config.pid_file_path
    }

    /// The PID to probe, given what was read from the PID file: none where
    /// the file could not be read or holds no PID.
    pub fn pid_to_probe(&self, content: Option<&str>) -> (pid: Option<i32>)
        ensures
            pid == match content {
                Some(text) => pid_of(text@),
                None => None,
            },
            pid is Some ==> pid->0 > 0,
    {
        match content {
            Some(text) => parse_pid(text),
            None => None,
        }
    }

    /// The event that says that the process, last seen as `pid`, went down.
    pub fn publish_process_down(&self, pid: u32) -> (event: ProcessEvent)
        ensures
            event == (ProcessEvent::ProcessDown { name: self@.name, pid }),
    {
        ProcessEvent::ProcessDown { name: self.config.name.clone(), pid }
    }

    /// What one probe of `pid` leads to: an event where the system knows no
    /// such process, nothing where the process is alive or the probe failed
    /// for another reason. A number that is no PID leads to nothing.
    pub fn check_and_publish(&self, pid: i32, outcome: ProbeOutcome) -> (event: Option<ProcessEvent>)
        ensures
            event == if pid > 0 && outcome == ProbeOutcome::NoSuchProcess {
                Some(ProcessEvent::ProcessDown { name: self@.name, pid: pid as u32 })
            } else {
                None
            },
    {
        if pid <= 0 {
            return None;
        }
        match outcome {
            ProbeOutcome::NoSuchProcess => Some(self.publish_process_down(pid as u32)),
            _ => None,
        }
    }
}

impl Monitor for PidMonitor {
    fn name(&self) -> (r: String)
        ensures
            r == self@.name,
    {
        self.config.name.clone()
    }
}

} // verus!
