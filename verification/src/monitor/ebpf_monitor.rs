use crate::config::EbpfMonitorConfig;
use crate::event_bus::ProcessEvent;
use crate::exit_event::{le_u32, ProcessExitEvent, COMM_LEN, EXIT_EVENT_LEN};
use crate::monitor::Monitor;
use crate::name_map::NameMap;
use crate::text::contains_text;
use crate::text::has_infix;
use crate::utils::{
    executable_name, extract_executable_name, lemma_encoding_without_zero, lemma_truncated,
    truncate_process_name, truncated, MAX_COMM_LEN,
};
use vstd::prelude::*;
use vstd::slice::*;
use vstd::string::*;
use vstd::utf8::*;

verus! {

/// How long a reader waits for records before it looks at the shutdown flag.
pub const READ_TIMEOUT_SECS: u64 = 1;

/// How long a reader rests after its descriptor failed, in milliseconds.
pub const FD_ERROR_PAUSE_MS: u64 = 100;

/// How long a shutdown waits for each reader.
pub const SHUTDOWN_WAIT_SECS: u64 = 3;

/// The key under which the kernel looks a task name up: the first bytes of
/// `name`, at most `COMM_LEN - 1` of them, padded to `COMM_LEN` with zero
/// bytes.
pub open spec fn comm_key_of(name: Seq<u8>) -> Seq<u8> {
    Seq::new(
        COMM_LEN as nat,
        |i: int| if i < name.len() && i < COMM_LEN - 1 {
            name[i]
        } else {
            0u8
        },
    )
}

/// The kernel-side key of the executable that `command` starts.
pub open spec fn watch_key(command: Seq<char>) -> Seq<u8> {
    comm_key_of(encode_utf8(truncated(executable_name(command))))
}

/// The key under which the kernel looks the task name `name` up.
pub fn comm_key(name: &str) -> (key: [u8; 16])
    ensures
        key@ == comm_key_of(name.spec_bytes()),
{
    let bytes = name.as_bytes();
    let copy_len: usize = if bytes.len() < COMM_LEN - 1 {
        bytes.len()
    } else {
        COMM_LEN - 1
    };
    let mut key: [u8; 16] = [0u8; 16];
    let mut i: usize = 0;
    while i < copy_len
        invariant
            bytes@ == name.spec_bytes(),
            copy_len <= bytes@.len(),
            copy_len <= COMM_LEN - 1,
            i <= copy_len,
            forall|j: int| 0 <= j < i ==> key@[j] == bytes@[j],
            forall|j: int| i <= j < COMM_LEN ==> key@[j] == 0,
        decreases copy_len - i,
    {
        key[i] = bytes[i];
        i += 1;
    }
    proof {
        assert(key@ =~= comm_key_of(name.spec_bytes()));
    }
    key
}

/// How many bytes of a task name field come before its first zero byte.
pub open spec fn text_len(comm: Seq<u8>) -> int
    decreases comm.len(),
{
    if comm.len() == 0 {
        0
    } else {
        let before = text_len(comm.drop_last());
        if before < comm.len() - 1 || comm.last() == 0 {
            before
        } else {
            comm.len() as int
        }
    }
}

/// The text in a task name field: its bytes up to the first zero byte, read
/// as UTF-8; `unknown` where they are no UTF-8.
pub open spec fn comm_text_of(comm: Seq<u8>) -> Seq<char> {
    let head = comm.take(text_len(comm));
    if valid_utf8(head) {
        decode_utf8(head)
    } else {
        "unknown"@
    }
}

proof fn lemma_text_len(comm: Seq<u8>, n: int)
    requires
        0 <= n <= comm.len(),
        forall|j: int| 0 <= j < n ==> comm[j] != 0,
        n < comm.len() ==> comm[n] == 0,
    ensures
        text_len(comm) == n,
    decreases comm.len(),
{
    if comm.len() > 0 {
        if n < comm.len() {
            lemma_text_len(comm.drop_last(), if n < comm.len() - 1 { n } else { comm.len() - 1 });
        } else {
            lemma_text_len(comm.drop_last(), comm.len() - 1);
        }
    }
}

/// `core::str::from_utf8`: the text that `bytes` encode in UTF-8, and `None`
/// exactly where they encode none.
#[verifier::external_body]
fn text_of<'a>(bytes: &'a [u8]) -> (r: Option<&'a str>)
    ensures
        r is Some <==> valid_utf8(bytes@),
        r is Some ==> r->0.spec_bytes() == bytes@,
{
    match core::str::from_utf8(bytes) {
        Ok(text) => Some(text),
        Err(_) => None,
    }
}

/// The text in a task name field.
pub fn comm_text(comm: &[u8; 16]) -> (text: String)
    ensures
        text@ == comm_text_of(comm@),
{
    let mut end: usize = 0;
    while end < COMM_LEN && comm[end] != 0
        invariant
            end <= COMM_LEN,
            forall|j: int| 0 <= j < end ==> comm@[j] != 0,
        decreases COMM_LEN - end,
    {
        end += 1;
    }
    proof {
        lemma_text_len(comm@, end as int);
    }
    let head = slice_subrange(comm.as_slice(), 0, end);
    match text_of(head) {
        Some(text) => {
            proof {
                encode_utf8_decode_utf8(text@);
            }
            text.to_owned()
        },
        None => "unknown".to_owned(),
    }
}

/// The name an exit of the task `comm` is reported under: the configured
/// name that `mapping` holds for the text of `comm`, and that text itself
/// where it holds none.
pub open spec fn resolved_name(mapping: Map<Seq<char>, String>, comm: Seq<u8>) -> Seq<char> {
    let text = comm_text_of(comm);
    if mapping.contains_key(text) {
        mapping[text]@
    } else {
        text
    }
}

/// What a reader of kernel records is handed, one at a time.
#[derive(Debug)]
pub enum ReaderInput {
    /// Nothing arrived within `READ_TIMEOUT_SECS`.
    Timeout,
    /// Waiting on the descriptor failed.
    FdError,
    /// The buffer could not be read; the text says why.
    ReadError(String),
    /// The records that were read, each in its wire form.
    Records(Vec<Vec<u8>>),
}

/// What the reader does next.
#[derive(Debug, PartialEq, Eq)]
pub enum ReaderStep {
    /// Publish these events, then wait for more records.
    Publish(Vec<ProcessEvent>),
    /// Wait for more records.
    Continue,
    /// Rest for `FD_ERROR_PAUSE_MS`, then wait for more records.
    Pause,
    /// Leave the loop.
    Stop,
}

/// Whether a read error means that the buffer is gone for good.
pub open spec fn is_fatal_read_error(message: Seq<char>) -> bool {
    has_infix(encode_utf8(message), encode_utf8("broken pipe"@)) || has_infix(
        encode_utf8(message),
        encode_utf8("connection"@),
    )
}

/// The records among `records` that are long enough to be exit records.
pub open spec fn whole_records(records: Seq<Vec<u8>>) -> Seq<Vec<u8>> {
    records.filter(|record: Vec<u8>| record@.len() >= EXIT_EVENT_LEN)
}

/// The user-space half of the exit-tracepoint monitor: which task names it
/// watches, and the configured name each stands for.
pub struct EbpfMonitor {
    process_name_mapping: NameMap<String>,
    shutdown_flag: bool,
}

/// The monitor as mathematics.
pub struct EbpfMonitorModel {
    /// From each watched task name to the configured name it stands for.
    pub mapping: Map<Seq<char>, String>,
    pub shutting_down: bool,
}

impl View for EbpfMonitor {
    type V = EbpfMonitorModel;

    closed spec fn view(&self) -> EbpfMonitorModel {
        EbpfMonitorModel {
            mapping: self.process_name_mapping@,
            shutting_down: self.shutdown_flag,
        }
    }
}

impl EbpfMonitorModel {
    /// The event that the exit record `record` becomes.
    pub open spec fn event_of(self, record: Seq<u8>) -> Option<(Seq<char>, int)> {
        if record.len() >= EXIT_EVENT_LEN {
            Some(
                (
                    resolved_name(self.mapping, record.subrange(4, EXIT_EVENT_LEN as int)),
                    le_u32(record.subrange(0, 4)),
                ),
            )
        } else {
            None
        }
    }
}

/// Whether `event` reports that process `name` with PID `pid` went down.
pub open spec fn is_down(event: ProcessEvent, name: Seq<char>, pid: int) -> bool {
    event matches ProcessEvent::ProcessDown { name: n, pid: p } && n@ == name && p == pid
}

impl EbpfMonitor {
    /// The table of task names is sound: no name twice.
    pub closed spec fn wf(&self) -> bool {
        self.process_name_mapping.wf()
    }

    /// A monitor that watches nothing yet.
    pub fn new() -> (r: Self)
        ensures
            r.wf(),
            r@ == (EbpfMonitorModel { mapping: Map::empty(), shutting_down: false }),
    {
        EbpfMonitor { process_name_mapping: NameMap::new(), shutdown_flag: false }
    }

    /// Starts to watch the executable of `ebpf_config`: its task name now
    /// stands for the configured name. Returns the key to put into the
    /// kernel's watch list.
    pub fn watch_config(&mut self, ebpf_config: EbpfMonitorConfig) -> (key: [u8; 16])
        requires
            old(self).wf(),
        ensures
            final(self).wf(),
            final(self)@ == (EbpfMonitorModel {
                mapping: old(self)@.mapping.insert(
                    truncated(executable_name(ebpf_config.command@)),
                    ebpf_config.name,
                ),
                ..old(self)@
            }),
            key@ == watch_key(ebpf_config.command@),
    {
        let executable_name = extract_executable_name(ebpf_config.command.as_str());
        let truncated_name = truncate_process_name(executable_name.as_str());
        let key = comm_key(truncated_name.as_str());
        self.process_name_mapping.insert(truncated_name, ebpf_config.name);
        key
    }

    /// Stops watching the executable of `ebpf_config`. Returns the key to
    /// take out of the kernel's watch list.
    pub fn unwatch_config(&mut self, ebpf_config: EbpfMonitorConfig) -> (key: [u8; 16])
        requires
            old(self).wf(),
        ensures
            final(self).wf(),
            final(self)@ == (EbpfMonitorModel {
                mapping: old(self)@.mapping.remove(truncated(executable_name(ebpf_config.command@))),
                ..old(self)@
            }),
            key@ == watch_key(ebpf_config.command@),
    {
        let executable_name = extract_executable_name(ebpf_config.command.as_str());
        let truncated_name = truncate_process_name(executable_name.as_str());
        let key = comm_key(truncated_name.as_str());
        self.process_name_mapping.remove(truncated_name.as_str());
        key
    }

    /// The name an exit of the task `comm` is reported under.
    pub fn resolve(&self, comm: &[u8; 16]) -> (name: String)
        requires
            self.wf(),
        ensures
            name@ == resolved_name(self@.mapping, comm@),
    {
        let text = comm_text(comm);
        match self.process_name_mapping.get(text.as_str()) {
            Some(name) => name.clone(),
            None => text,
        }
    }

    /// The event that one exit record from the kernel becomes: the process
    /// it names went down. `None` where `record` is too short to be one.
    pub fn on_exit_record(&self, record: &[u8]) -> (event: Option<ProcessEvent>)
        requires
            self.wf(),
        ensures
            match self@.event_of(record@) {
                Some((name, pid)) => event is Some && is_down(event->0, name, pid),
                None => event is None,
            },
    {
        match ProcessExitEvent::decode(record) {
            Some(exit) => Some(ProcessEvent::ProcessDown { name: self.resolve(&exit.comm), pid: exit.pid }),
            None => None,
        }
    }

    /// Whether `events` are what `records` report, record by record; records
    /// too short to be exit records report nothing.
    pub open spec fn reports(&self, events: Seq<ProcessEvent>, records: Seq<Vec<u8>>) -> bool {
        let whole = whole_records(records);
        &&& events.len() == whole.len()
        &&& forall|i: int|
            0 <= i < whole.len() ==> is_down(
                #[trigger] events[i],
                resolved_name(self@.mapping, whole[i]@.subrange(4, EXIT_EVENT_LEN as int)),
                le_u32(whole[i]@.subrange(0, 4)),
            )
    }

    /// One turn of a reader's loop. Records become events to publish. A read
    /// error ends the loop if it says that the buffer is gone, and is passed
    /// over if not. A failed descriptor earns a rest, a timeout nothing.
    pub fn reader_step(&self, input: &ReaderInput) -> (step: ReaderStep)
        requires
            self.wf(),
        ensures
            match input {
                ReaderInput::Timeout => step is Continue,
                ReaderInput::FdError => step is Pause,
                ReaderInput::ReadError(message) => if is_fatal_read_error(message@) {
                    step is Stop
                } else {
                    step is Continue
                },
                ReaderInput::Records(records) => step is Publish && self.reports(
                    step->Publish_0@,
                    records@,
                ),
            },
    {
        match input {
            ReaderInput::Timeout => ReaderStep::Continue,
            ReaderInput::FdError => ReaderStep::Pause,
            ReaderInput::ReadError(message) => {
                if contains_text(message.as_str(), "broken pipe") || contains_text(
                    message.as_str(),
                    "connection",
                ) {
                    ReaderStep::Stop
                } else {
                    ReaderStep::Continue
                }
            },
            ReaderInput::Records(records) => {
                let mut events: Vec<ProcessEvent> = Vec::new();
                let mut i: usize = 0;
                proof {
                    reveal(Seq::filter);
                    assert(records@.take(0) =~= Seq::<Vec<u8>>::empty());
                }
                while i < records.len()
                    invariant
                        self.wf(),
                        i <= records.len(),
                        self.reports(events@, records@.take(i as int)),
                    decreases records.len() - i,
                {
                    let ghost seen = records@.take(i as int);
                    proof {
                        assert(records@.take(i + 1) =~= seen.push(records@[i as int]));
                        seen.lemma_filter_push(
                            records@[i as int],
                            |record: Vec<u8>| record@.len() >= EXIT_EVENT_LEN,
                        );
                    }
                    match self.on_exit_record(records[i].as_slice()) {
                        Some(event) => {
                            events.push(event);
                        },
                        None => {},
                    }
                    i += 1;
                }
                proof {
                    assert(records@.take(i as int) =~= records@);
                }
                ReaderStep::Publish(events)
            },
        }
    }

    /// Asks the readers to leave their loops.
    pub fn shutdown(&mut self)
        ensures
            final(self)@ == (EbpfMonitorModel { shutting_down: true, ..old(self)@ }),
            old(self).wf() ==> final(self).wf(),
    {
        self.shutdown_flag = true;
    }

    /// Whether the readers were asked to leave their loops.
    pub fn is_shutting_down(&self) -> (r: bool)
        ensures
            r == self@.shutting_down,
    {
        self.shutdown_flag
    }
}

impl Monitor for EbpfMonitor {
    fn name(&self) -> (r: String)
        ensures
            r@ == "EbpfMonitor"@,
    {
        "EbpfMonitor".to_owned()
    }
}

/// The kernel's key spells the name it was made from. Where a name has no
/// NUL character, the text read back from the key of its truncation is that
/// truncation.
pub proof fn lemma_key_spells_name(name: Seq<char>)
    requires
        forall|i: int| 0 <= i < name.len() ==> name[i] != '\0',
    ensures
        comm_text_of(comm_key_of(encode_utf8(truncated(name)))) == truncated(name),
{
    let kept = truncated(name);
    let bytes = encode_utf8(kept);
    let key = comm_key_of(bytes);
    lemma_truncated(name);
    assert forall|i: int| 0 <= i < kept.len() implies kept[i] != '\0' by {
        assert(kept[i] == name[i]);
    }
    lemma_encoding_without_zero(kept);
    assert forall|j: int| 0 <= j < bytes.len() implies key[j] != 0 by {
        assert(key[j] == bytes[j]);
    }
    lemma_text_len(key, bytes.len() as int);
    assert(key.take(bytes.len() as int) =~= bytes);
    encode_utf8_valid_utf8(kept);
    encode_utf8_decode_utf8(kept);
}

/// A watched executable is reported under its configured name. Once the
/// monitor watches for `watch`, a kernel record that carries the key of its
/// executable resolves to the name that `watch` configures, provided that
/// the name of the executable has no NUL character.
pub proof fn lemma_watched_exit_resolves(monitor: EbpfMonitorModel, watch: EbpfMonitorConfig)
    requires
        forall|i: int|
            0 <= i < executable_name(watch.command@).len() ==> executable_name(watch.command@)[i]
                != '\0',
    ensures
        resolved_name(
            monitor.mapping.insert(truncated(executable_name(watch.command@)), watch.name),
            watch_key(watch.command@),
        ) == watch.name@,
{
    lemma_key_spells_name(executable_name(watch.command@));
}

} // verus!
