use vstd::prelude::*;

verus! {

/// Length of the kernel's task name field, terminator included.
pub const COMM_LEN: usize = 16;

/// Length of an exit record on the wire: the PID, then the task name.
pub const EXIT_EVENT_LEN: usize = 20;

/// What the kernel reports when a watched process ends.
#[derive(Clone, Copy, Debug, PartialEq, Eq)]
pub struct ProcessExitEvent {
    pub pid: u32,
    /// The task name of the process, padded with zero bytes.
    pub comm: [u8; 16],
}

/// The number that four bytes spell, least significant byte first.
pub open spec fn le_u32(bytes: Seq<u8>) -> int
    recommends
        bytes.len() == 4,
{
    bytes[0] + bytes[1] * 0x100 + bytes[2] * 0x1_0000 + bytes[3] * 0x100_0000
}

/// The four bytes that spell `value`, least significant byte first.
pub open spec fn le_bytes(value: u32) -> Seq<u8> {
    seq![
        (value % 0x100) as u8,
        (value / 0x100 % 0x100) as u8,
        (value / 0x1_0000 % 0x100) as u8,
        (value / 0x100_0000) as u8,
    ]
}

impl ProcessExitEvent {
    /// The record on the wire.
    pub open spec fn wire(self) -> Seq<u8> {
        le_bytes(self.pid) + self.comm@
    }

    /// What the kernel side reports when the task `pid` of the thread group
    /// `tgid` ends: a record where the task leads its group, its name could
    /// be read and the name is in the watch list, and nothing otherwise.
    pub fn on_task_exit(pid: u32, tgid: u32, comm: Option<[u8; 16]>, watched: bool) -> (r: Option<
        ProcessExitEvent,
    >)
        ensures
            r == match comm {
                Some(name) if pid == tgid && watched => Some(ProcessExitEvent { pid, comm: name }),
                _ => None,
            },
    {
        if pid != tgid {
            return None;
        }
        match comm {
            Some(name) => {
                if watched {
                    Some(ProcessExitEvent { pid, comm: name })
                } else {
                    None
                }
            },
            None => None,
        }
    }

    /// Reads an exit record from the start of `buf`; `None` where `buf` is
    /// too short to hold one.
    pub fn decode(buf: &[u8]) -> (r: Option<ProcessExitEvent>)
        ensures
            r is Some <==> buf@.len() >= EXIT_EVENT_LEN,
            r is Some ==> r->0.pid == le_u32(buf@.subrange(0, 4)) && r->0.comm@ == buf@.subrange(
                4,
                EXIT_EVENT_LEN as int,
            ),
    {
        if buf.len() < EXIT_EVENT_LEN {
            return None;
        }
        let pid: u32 = buf[0] as u32 + buf[1] as u32 * 0x100 + buf[2] as u32 * 0x1_0000 + buf[3] as u32
            * 0x100_0000;
        let mut comm: [u8; 16] = [0u8; 16];
        let mut i: usize = 0;
        while i < COMM_LEN
            invariant
                i <= COMM_LEN,
                buf@.len() >= EXIT_EVENT_LEN,
                forall|j: int| 0 <= j < i ==> comm@[j] == buf@[4 + j],
            decreases COMM_LEN - i,
        {
            comm[i] = buf[4 + i];
            i += 1;
        }
        proof {
            assert(comm@ =~= buf@.subrange(4, EXIT_EVENT_LEN as int));
        }
        Some(ProcessExitEvent { pid, comm })
    }

    /// Writes the record as it stands on the wire.
    pub fn encode(&self) -> (r: Vec<u8>)
        ensures
            r@ == self.wire(),
            r@.len() == EXIT_EVENT_LEN,
    {
        let mut out: Vec<u8> = Vec::new();
        out.push((self.pid % 0x100) as u8);
        out.push((self.pid / 0x100 % 0x100) as u8);
        out.push((self.pid / 0x1_0000 % 0x100) as u8);
        out.push((self.pid / 0x100_0000) as u8);
        let mut i: usize = 0;
        while i < COMM_LEN
            invariant
                i <= COMM_LEN,
                out@ == le_bytes(self.pid) + self.comm@.take(i as int),
            decreases COMM_LEN - i,
        {
            out.push(self.comm[i]);
            proof {
                assert(self.comm@.take(i + 1) =~= self.comm@.take(i as int).push(self.comm@[i as int]));
                assert(out@ =~= le_bytes(self.pid) + self.comm@.take(i + 1));
            }
            i += 1;
        }
        proof {
            assert(self.comm@.take(COMM_LEN as int) =~= self.comm@);
        }
        out
    }
}

/// A record read back from its wire form is the record.
pub proof fn lemma_wire_round_trip(event: ProcessExitEvent)
    ensures
        le_u32(event.wire().subrange(0, 4)) == event.pid,
        event.wire().subrange(4, EXIT_EVENT_LEN as int) == event.comm@,
        event.wire().len() == EXIT_EVENT_LEN,
{
    let w = event.wire();
    assert(w.subrange(0, 4) =~= le_bytes(event.pid));
    assert(w.subrange(4, EXIT_EVENT_LEN as int) =~= event.comm@);
}

} // verus!
