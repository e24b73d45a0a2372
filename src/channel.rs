//! The producer/consumer protocol: the messages background sources send,
//! the commands sent back, and the consumer's handling of each message.
use vstd::prelude::*;
use vstd::string::StringExecFns;
use crate::order::{positions_by_key, sorted_by_key, usize_seq_to_int};
use crate::filter::{admits, FilterCriteria};
use crate::record::LogEntry;
use crate::table::KeyedTable;
use crate::text::{chars_of, decimal_of, push_decimal};

verus! {

/// The most messages the consumer drains in one turn.
pub const MAX_BATCH: usize = 5000;

/// What a background source sends.
#[derive(Debug)]
pub enum BackgroundMessage {
    Entry(LogEntry),
    /// `percent_tenths` is the share done in tenths of a percent; 0 where unknown
    Progress { lines: usize, percent_tenths: u32 },
    Completed { total_lines: usize, entries: usize },
    Error(String),
    SshConnected,
    SshDisconnected,
}

/// What the consumer sends back to a source.
#[derive(Clone, Copy, Debug, PartialEq, Eq, Structural)]
pub enum BackgroundCommand {
    /// stop producing
    Cancel,
    /// tear down the connection
    Disconnect,
}

/// Whether a source stops on the command it received, if any.
pub fn should_stop(cmd: Option<BackgroundCommand>) -> (r: bool)
    ensures
        r == cmd is Some,
{
    match cmd {
        Some(BackgroundCommand::Cancel) | Some(BackgroundCommand::Disconnect) => true,
        None => false,
    }
}

/// Whether a source reports progress after `lines` lines, every `interval` lines.
pub fn progress_due(lines: usize, interval: usize) -> (r: bool)
    requires
        interval > 0,
    ensures
        r == (lines % interval == 0),
{
    lines % interval == 0
}

/// The share of `size` bytes that `done` bytes are, in tenths of a percent
/// rounded down; 0 where the size is unknown.
pub fn percent_tenths(done: u64, size: u64) -> (r: u32)
    ensures
        size == 0 ==> r == 0,
        size > 0 && done <= size ==> r == (done as int * 1000) / (size as int),
{
    if size == 0 {
        return 0;
    }
    let p: u128 = (done as u128) * 1000 / (size as u128);
    if done <= size {
        assert((done as int * 1000) / (size as int) <= 1000) by (nonlinear_arith)
            requires
                done <= size,
                size > 0,
        {
        }
    }
    if p <= u32::MAX as u128 { p as u32 } else { u32::MAX }
}

/// The entries received so far and the services seen among them.
pub struct LogStore {
    entries: Vec<LogEntry>,
    services: KeyedTable<usize>,
}

impl LogStore {
    pub closed spec fn entries_view(&self) -> Seq<LogEntry> {
        self.entries@
    }

    /// The entries received, in order.
    pub fn entries(&self) -> (r: &Vec<LogEntry>)
        ensures
            r@ == self.entries_view(),
    {
        &self.entries
    }

    pub closed spec fn service_table(&self) -> KeyedTable<usize> {
        self.services
    }

    pub closed spec fn wf(&self) -> bool {
        self.services.wf() && self.services.bounded_by(self.entries@.len() as nat)
    }

    pub fn new() -> (r: LogStore)
        ensures
            r.wf(),
            r.entries_view().len() == 0,
            r.service_table().keys_view().len() == 0,
    {
        LogStore { entries: Vec::new(), services: KeyedTable::new() }
    }

    /// Keeps one more entry.
    pub fn add(&mut self, entry: LogEntry)
        requires
            old(self).wf(),
            old(self).entries_view().len() < usize::MAX,
        ensures
            final(self).wf(),
            final(self).entries_view() == old(self).entries_view().push(entry),
            forall|k: Seq<char>|
                #[trigger] final(self).service_table().count(k) == old(self).service_table().count(k) + (
                if k == entry.service@ {
                    1int
                } else {
                    0
                }),
    {
        proof {
            self.services.lemma_count_bounded(self.entries@.len() as nat, entry.service@);
        }
        self.services.bump(entry.service.as_str());
        self.entries.push(entry);
    }

    /// The positions of the entries that `filter` admits, in order.
    pub fn filtered_indices(&self, filter: &FilterCriteria) -> (r: Vec<usize>)
        ensures
            forall|i: int| 0 <= i < r@.len() ==> #[trigger] r@[i] < self.entries_view().len(),
            forall|i: int, j: int| 0 <= i < j < r@.len() ==> r@[i] < r@[j],
            forall|k: int|
                0 <= k < self.entries_view().len() ==> (r@.contains(k as usize) <==> admits(
                    filter@,
                    self.entries_view()[k].priority,
                    self.entries_view()[k].service@,
                    self.entries_view()[k].message@,
                )),
    {
        let mut out: Vec<usize> = Vec::new();
        let mut i: usize = 0;
        while i < self.entries.len()
            invariant
                i <= self.entries@.len(),
                forall|a: int| 0 <= a < out@.len() ==> #[trigger] out@[a] < i,
                forall|a: int, b: int| 0 <= a < b < out@.len() ==> out@[a] < out@[b],
                forall|k: int|
                    0 <= k < i ==> (out@.contains(k as usize) <==> admits(
                        filter@,
                        self.entries@[k].priority,
                        self.entries@[k].service@,
                        self.entries@[k].message@,
                    )),
            decreases self.entries.len() - i,
        {
            if filter.matches_entry(&self.entries[i]) {
                let ghost before = out@;
                out.push(i);
                proof {
                    assert forall|k: int| 0 <= k < i + 1 implies (out@.contains(k as usize) <==> admits(
                        filter@,
                        self.entries@[k].priority,
                        self.entries@[k].service@,
                        self.entries@[k].message@,
                    )) by {
                        if k < i {
                            if out@.contains(k as usize) {
                                let w = choose|w: int| 0 <= w < out@.len() && out@[w] == k as usize;
                                if w < before.len() {
                                    assert(before[w] == k as usize);
                                }
                            }
                            if before.contains(k as usize) {
                                let w = choose|w: int| 0 <= w < before.len() && before[w] == k as usize;
                                assert(out@[w] == k as usize);
                            }
                        } else {
                            assert(out@[before.len() as int] == i);
                        }
                    }
                }
            } else {
                proof {
                    assert(!out@.contains(i));
                }
            }
            i = i + 1;
        }
        out
    }

    /// The names of the services seen, in ascending order.
    pub fn service_names(&self) -> (r: Vec<String>)
        requires
            self.wf(),
        ensures
            exists|ps: Seq<int>|
                ps.len() == self.service_table().keys_view().len() && sorted_by_key(
                    self.service_table().keys_view(),
                    ps,
                ) && r@.len() == ps.len() && forall|i: int|
                    0 <= i < ps.len() ==> (#[trigger] r@[i])@
                        == self.service_table().keys_view()[ps[i]],
    {
        let ps = positions_by_key(&self.services);
        let mut out: Vec<String> = Vec::new();
        let mut i: usize = 0;
        while i < ps.len()
            invariant
                self.wf(),
                i <= ps@.len(),
                ps@.len() == self.service_table().keys_view().len(),
                sorted_by_key(self.service_table().keys_view(), usize_seq_to_int(ps@)),
                out@.len() == i,
                forall|j: int|
                    0 <= j < i ==> (#[trigger] out@[j])@ == self.service_table().keys_view()[ps@[j] as int],
            decreases ps.len() - i,
        {
            let p = ps[i];
            assert(usize_seq_to_int(ps@)[i as int] == p as int);
            out.push(self.services.key(p).clone());
            i = i + 1;
        }
        proof {
            let ips = usize_seq_to_int(ps@);
            assert forall|j: int| 0 <= j < ips.len() implies (#[trigger] out@[j])@ == self.service_table().keys_view()[ips[j]] by {
                assert(ips[j] == ps@[j] as int);
            }
        }
        out
    }
}

/// The status shown once a source completed.
pub open spec fn loaded_text(entries: usize, lines: usize) -> Seq<char> {
    "Loaded "@ + decimal_of(entries as nat) + " entries from "@ + decimal_of(lines as nat) + " lines"@
}

/// The status shown while a source reports progress.
pub open spec fn progress_text(lines: usize, percent_tenths: u32, entries: nat) -> Seq<char> {
    if percent_tenths > 0 {
        "Loading: "@ + decimal_of(lines as nat) + " lines ("@ + decimal_of((percent_tenths / 10) as nat)
            + "."@ + decimal_of((percent_tenths % 10) as nat) + "%) - "@ + decimal_of(entries)
            + " entries"@
    } else {
        "Streaming: "@ + decimal_of(lines as nat) + " lines - "@ + decimal_of(entries) + " entries"@
    }
}

/// What the consumer must do after handling a message.
#[derive(Clone, Copy, Debug, PartialEq, Eq, Structural)]
pub enum ConsumerAction {
    Nothing,
    /// save the received entries, as the settings ask on disconnect
    AutoSave,
}

/// The consumer's externally observable status.
pub struct ConsumerStatus {
    pub is_loading: bool,
    pub is_connected: bool,
    pub total_lines: usize,
    pub status_message: String,
}

/// `s` begins with `prefix`.
pub open spec fn starts_with(s: Seq<char>, prefix: Seq<char>) -> bool {
    prefix.len() <= s.len() && s.take(prefix.len() as int) == prefix
}

fn starts_with_exec(s: &str, prefix: &str) -> (r: bool)
    ensures
        r == starts_with(s@, prefix@),
{
    let a = chars_of(s);
    let b = chars_of(prefix);
    assert(a@ == s@ && b@ == prefix@);
    if b.len() > a.len() {
        return false;
    }
    let mut i: usize = 0;
    while i < b.len()
        invariant
            i <= b@.len(),
            b@.len() <= a@.len(),
            a@ == s@,
            b@ == prefix@,
            forall|j: int| 0 <= j < i ==> a@[j] == b@[j],
        decreases b.len() - i,
    {
        if a[i] != b[i] {
            assert(a@.take(b@.len() as int)[i as int] != b@[i as int]);
            assert(a@.take(b@.len() as int) != b@);
            return false;
        }
        i = i + 1;
    }
    assert(a@.take(b@.len() as int) =~= b@);
    true
}

impl ConsumerStatus {
    pub fn new() -> (r: ConsumerStatus)
        ensures
            !r.is_loading,
            !r.is_connected,
            r.total_lines == 0,
    {
        ConsumerStatus {
            is_loading: false,
            is_connected: false,
            total_lines: 0,
            status_message: "Ready - File > Open or Connect SSH".to_owned(),
        }
    }

    /// Applies one message from a source. Entries go to `store`; the other
    /// messages update the status. On disconnect the consumer is asked to save
    /// where `auto_save` is set and entries were received.
    pub fn apply(&mut self, store: &mut LogStore, msg: BackgroundMessage, auto_save: bool) -> (r: ConsumerAction)
        requires
            old(store).wf(),
            old(store).entries_view().len() < usize::MAX,
        ensures
            final(store).wf(),
            match msg {
                BackgroundMessage::Entry(e) => final(store).entries_view() == old(store).entries_view().push(e)
                    && final(self).is_loading == old(self).is_loading
                    && final(self).is_connected == old(self).is_connected
                    && final(self).total_lines == old(self).total_lines,
                _ => final(store).entries_view() == old(store).entries_view(),
            },
            msg matches BackgroundMessage::Progress { lines, percent_tenths } ==> final(self).total_lines
                == lines && final(self).is_loading == old(self).is_loading
                && final(self).is_connected == old(self).is_connected
                && final(self).status_message@ == progress_text(
                lines,
                percent_tenths,
                old(store).entries_view().len(),
            ),
            msg matches BackgroundMessage::Completed { total_lines, entries } ==> !final(self).is_loading
                && final(self).is_connected == old(self).is_connected
                && final(self).total_lines == total_lines && final(self).status_message@
                == loaded_text(entries, total_lines),
            msg matches BackgroundMessage::Error(e) ==> !final(self).is_loading
                && final(self).is_connected == old(self).is_connected
                && final(self).total_lines == old(self).total_lines && final(self).status_message@
                == "Error: "@ + e@,
            (msg is SshConnected) ==> final(self).is_connected
                && final(self).is_loading == old(self).is_loading && final(self).status_message@
                == "SSH connected - streaming..."@,
            (msg is SshDisconnected) ==> !final(self).is_connected && !final(self).is_loading
                && final(self).status_message@ == (if starts_with(old(self).status_message@, "Error"@)
                || starts_with(old(self).status_message@, "Saved"@) {
                old(self).status_message@
            } else {
                "Disconnected - "@ + decimal_of(old(store).entries_view().len()) + " entries loaded"@
            }),
            r == (if (msg is SshDisconnected) && auto_save && old(store).entries_view().len() > 0 {
                ConsumerAction::AutoSave
            } else {
                ConsumerAction::Nothing
            }),
    {
        match msg {
            BackgroundMessage::Entry(entry) => {
                store.add(entry);
                ConsumerAction::Nothing
            },
            BackgroundMessage::Progress { lines, percent_tenths } => {
                self.total_lines = lines;
                let mut s = String::new();
                if percent_tenths > 0 {
                    s.append("Loading: ");
                    push_decimal(&mut s, lines as u64);
                    s.append(" lines (");
                    push_decimal(&mut s, (percent_tenths / 10) as u64);
                    s.append(".");
                    push_decimal(&mut s, (percent_tenths % 10) as u64);
                    s.append("%) - ");
                } else {
                    s.append("Streaming: ");
                    push_decimal(&mut s, lines as u64);
                    s.append(" lines - ");
                }
                push_decimal(&mut s, store.entries.len() as u64);
                s.append(" entries");
                assert(s@ =~= progress_text(lines, percent_tenths, store.entries_view().len()));
                self.status_message = s;
                ConsumerAction::Nothing
            },
            BackgroundMessage::Completed { total_lines, entries } => {
                self.is_loading = false;
                self.total_lines = total_lines;
                self.status_message = loaded_message(entries, total_lines);
                ConsumerAction::Nothing
            },
            BackgroundMessage::Error(e) => {
                self.is_loading = false;
                let mut s = String::new();
                s.append("Error: ");
                s.append(e.as_str());
                assert(s@ =~= "Error: "@ + e@);
                self.status_message = s;
                ConsumerAction::Nothing
            },
            BackgroundMessage::SshConnected => {
                self.is_connected = true;
                self.status_message = "SSH connected - streaming...".to_owned();
                ConsumerAction::Nothing
            },
            BackgroundMessage::SshDisconnected => {
                self.is_connected = false;
                self.is_loading = false;
                let save = auto_save && store.entries.len() > 0;
                if !starts_with_exec(self.status_message.as_str(), "Error") && !starts_with_exec(
                    self.status_message.as_str(),
                    "Saved",
                ) {
                    let mut s = String::new();
                    s.append("Disconnected - ");
                    push_decimal(&mut s, store.entries.len() as u64);
                    s.append(" entries loaded");
                    assert(s@ =~= "Disconnected - "@ + decimal_of(store.entries_view().len()) + " entries loaded"@);
                    self.status_message = s;
                }
                if save {
                    ConsumerAction::AutoSave
                } else {
                    ConsumerAction::Nothing
                }
            },
        }
    }

    /// The source's channel was closed by the runtime: treated as completion
    /// with the totals last known.
    pub fn channel_closed(&mut self, store: &LogStore)
        ensures
            !final(self).is_loading,
            final(self).status_message@ == loaded_text(
                store.entries_view().len() as usize,
                old(self).total_lines,
            ),
            final(self).total_lines == old(self).total_lines,
            final(self).is_connected == old(self).is_connected,
    {
        self.is_loading = false;
        self.status_message = loaded_message(store.entries.len(), self.total_lines);
    }
}

fn loaded_message(entries: usize, lines: usize) -> (r: String)
    ensures
        r@ == loaded_text(entries, lines),
{
    let mut s = String::new();
    s.append("Loaded ");
    push_decimal(&mut s, entries as u64);
    s.append(" entries from ");
    push_decimal(&mut s, lines as u64);
    s.append(" lines");
    assert(s@ =~= loaded_text(entries, lines));
    s
}

} // verus!
