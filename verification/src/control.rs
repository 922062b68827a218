//! The state of a conversion run and the commands that change it (start,
//! pause, resume, cancel), the default settings, and the summaries sent to
//! the front end.
use vstd::prelude::*;

use crate::model::{
    AppSettings, ConversionCancelledEvent, ConversionCompleteEvent, ConversionPausedEvent,
    ConversionResult, ConversionResumedEvent, MediaFile,
};

verus! {

/// Whether a run is under way, whether it is paused, how many files of it are
/// done, and how many files it has.
#[derive(Debug, Clone, Copy)]
pub struct ConversionControl {
    pub is_converting: bool,
    pub is_paused: bool,
    pub completed_count: usize,
    pub file_count: usize,
}

/// What a file about to start does.
#[derive(Debug, Clone, Copy, PartialEq, Eq, Structural)]
pub enum Gate {
    /// The run was cancelled: give up.
    Cancelled,
    /// The run is paused: wait and ask again.
    Wait,
    /// Go on with the conversion.
    Proceed,
}

/// What a file about to start does in state `s`.
pub open spec fn gate_spec(s: ConversionControl) -> Gate {
    if !s.is_converting {
        Gate::Cancelled
    } else if s.is_paused {
        Gate::Wait
    } else {
        Gate::Proceed
    }
}

/// The state after `start`, and whether it was refused.
pub open spec fn start_spec(s: ConversionControl, files: usize) -> (ConversionControl, bool) {
    if s.is_converting {
        (s, false)
    } else {
        (ConversionControl { completed_count: 0, is_converting: true, file_count: files, ..s }, true)
    }
}

/// The files of the run not done yet.
pub open spec fn pending_spec(s: ConversionControl) -> usize {
    if s.file_count >= s.completed_count {
        (s.file_count - s.completed_count) as usize
    } else {
        0
    }
}

/// The state after `pause`, and whether it was accepted.
pub open spec fn pause_spec(s: ConversionControl) -> (ConversionControl, bool) {
    if !s.is_converting || s.is_paused {
        (s, false)
    } else {
        (ConversionControl { is_paused: true, ..s }, true)
    }
}

/// The state after `resume`, and whether it was accepted.
pub open spec fn resume_spec(s: ConversionControl) -> (ConversionControl, bool) {
    if !s.is_converting || !s.is_paused {
        (s, false)
    } else {
        (ConversionControl { is_paused: false, ..s }, true)
    }
}

/// The state after `cancel`.
pub open spec fn cancel_spec(s: ConversionControl) -> ConversionControl {
    ConversionControl { is_converting: false, file_count: 0, ..s }
}

impl ConversionControl {
    /// No run under way.
    pub fn new() -> (s: ConversionControl)
        ensures
            s == (ConversionControl {
                is_converting: false,
                is_paused: false,
                completed_count: 0,
                file_count: 0,
            }),
    {
        ConversionControl { is_converting: false, is_paused: false, completed_count: 0, file_count: 0 }
    }

    /// Starts a run of `file_count` files with no file finished yet; a run
    /// already under way is refused with `Conversion already in progress` and
    /// left as it was.
    pub fn start(&mut self, file_count: usize) -> (r: Result<(), String>)
        ensures
            *final(self) == start_spec(*old(self), file_count).0,
            r.is_ok() == start_spec(*old(self), file_count).1,
            r matches Err(e) ==> e@ == "Conversion already in progress"@,
    {
        if self.is_converting {
            return Err("Conversion already in progress".to_owned());
        }
        self.completed_count = 0;
        self.is_converting = true;
        self.file_count = file_count;
        Ok(())
    }

    /// The files of the run not done yet (see `pending_spec`).
    pub fn pending(&self) -> (n: usize)
        ensures
            n == pending_spec(*self),
    {
        if self.file_count >= self.completed_count {
            self.file_count - self.completed_count
        } else {
            0
        }
    }

    /// The run has finished.
    pub fn finish(&mut self)
        ensures
            *final(self) == (ConversionControl { is_converting: false, ..*old(self) }),
    {
        self.is_converting = false;
    }

    /// One more file of the run is done (converted or failed).
    pub fn file_done(&mut self)
        requires
            old(self).completed_count < usize::MAX,
        ensures
            *final(self) == (ConversionControl {
                completed_count: (old(self).completed_count + 1) as usize,
                ..*old(self)
            }),
    {
        self.completed_count = self.completed_count + 1;
    }

    /// What a file about to start does: give up when the run is no longer
    /// under way, wait while it is paused, go on otherwise.
    pub fn gate(&self) -> (g: Gate)
        ensures
            g == gate_spec(*self),
    {
        if !self.is_converting {
            Gate::Cancelled
        } else if self.is_paused {
            Gate::Wait
        } else {
            Gate::Proceed
        }
    }

    /// Cancels the run: it is no longer under way and its files are dropped;
    /// the event reports the files done and the files the run had.
    pub fn cancel(&mut self) -> (e: ConversionCancelledEvent)
        ensures
            *final(self) == cancel_spec(*old(self)),
            e.completed_count == old(self).completed_count,
            e.total_count == old(self).file_count,
    {
        let event = ConversionCancelledEvent {
            completed_count: self.completed_count,
            total_count: self.file_count,
        };
        self.is_converting = false;
        self.file_count = 0;
        event
    }

    /// Pauses the run; refused with `No conversion in progress` when no run is
    /// under way and with `Conversion already paused` when it is paused.
    pub fn pause(&mut self) -> (r: Result<ConversionPausedEvent, String>)
        ensures
            *final(self) == pause_spec(*old(self)).0,
            r.is_ok() == pause_spec(*old(self)).1,
            r matches Ok(e) ==> e.completed_count == old(self).completed_count && e.pending_count
                == pending_spec(*old(self)),
            r matches Err(m) ==> (if !old(self).is_converting {
                m@ == "No conversion in progress"@
            } else {
                m@ == "Conversion already paused"@
            }),
    {
        if !self.is_converting {
            return Err("No conversion in progress".to_owned());
        }
        if self.is_paused {
            return Err("Conversion already paused".to_owned());
        }
        self.is_paused = true;
        Ok(ConversionPausedEvent { completed_count: self.completed_count, pending_count: self.pending() })
    }

    /// Resumes a paused run; refused with `No conversion in progress` when no
    /// run is under way and with `Conversion is not paused` when it is not
    /// paused.
    pub fn resume(&mut self) -> (r: Result<ConversionResumedEvent, String>)
        ensures
            *final(self) == resume_spec(*old(self)).0,
            r.is_ok() == resume_spec(*old(self)).1,
            r matches Ok(e) ==> e.completed_count == old(self).completed_count && e.pending_count
                == pending_spec(*old(self)),
            r matches Err(m) ==> (if !old(self).is_converting {
                m@ == "No conversion in progress"@
            } else {
                m@ == "Conversion is not paused"@
            }),
    {
        if !self.is_converting {
            return Err("No conversion in progress".to_owned());
        }
        if !self.is_paused {
            return Err("Conversion is not paused".to_owned());
        }
        self.is_paused = false;
        Ok(ConversionResumedEvent { completed_count: self.completed_count, pending_count: self.pending() })
    }
}

/// Pausing a run under way and then resuming it gives back the state before
/// the pause; both steps are accepted.
pub proof fn lemma_pause_then_resume(s: ConversionControl)
    requires
        s.is_converting,
        !s.is_paused,
    ensures
        pause_spec(s).1,
        resume_spec(pause_spec(s).0).1,
        resume_spec(pause_spec(s).0).0 == s,
{
}

/// A refused command changes nothing.
pub proof fn lemma_refused_commands_change_nothing(s: ConversionControl, files: usize)
    ensures
        !pause_spec(s).1 ==> pause_spec(s).0 == s,
        !resume_spec(s).1 ==> resume_spec(s).0 == s,
        !start_spec(s, files).1 ==> start_spec(s, files).0 == s,
{
}

/// After a cancel no run is under way and no file is left, so a new start is
/// accepted, a pause is refused and a second cancel reports no files.
pub proof fn lemma_cancel_ends_the_run(s: ConversionControl, files: usize)
    ensures
        !cancel_spec(s).is_converting,
        cancel_spec(s).file_count == 0,
        start_spec(cancel_spec(s), files).1,
        !pause_spec(cancel_spec(s)).1,
        !resume_spec(cancel_spec(s)).1,
        cancel_spec(cancel_spec(s)) == cancel_spec(s),
{
}

/// A file that has not started waits once the run is paused, goes on once it
/// is resumed, and gives up once the run is cancelled.
pub proof fn lemma_gate_follows_commands(s: ConversionControl, files: usize)
    ensures
        pause_spec(s).1 ==> gate_spec(pause_spec(s).0) == Gate::Wait,
        resume_spec(s).1 ==> gate_spec(resume_spec(s).0) == Gate::Proceed,
        gate_spec(cancel_spec(s)) == Gate::Cancelled,
        start_spec(s, files).1 && !s.is_paused ==> gate_spec(start_spec(s, files).0) == Gate::Proceed,
{
}

/// A start is accepted exactly when no run is under way, and afterwards a run
/// of the given files is under way with no file done (so a cancel reports
/// that many files, and a pause that many pending).
pub proof fn lemma_start(s: ConversionControl, files: usize)
    ensures
        start_spec(s, files).1 == !s.is_converting,
        start_spec(s, files).0.is_converting,
        start_spec(s, files).1 ==> start_spec(s, files).0.completed_count == 0,
        start_spec(s, files).0.is_paused == s.is_paused,
        start_spec(s, files).1 ==> start_spec(s, files).0.file_count == files,
        start_spec(s, files).1 ==> pending_spec(start_spec(s, files).0) == files,
{
}

// ---------------------------------------------------------------------------
// Settings
// ---------------------------------------------------------------------------

/// The concurrency offered for a machine with `cpus` CPUs: the largest of
/// 1, 2, 4, 6, 8 that is at most `cpus`, and 1 when none is.
pub open spec fn concurrency_for(cpus: nat) -> usize {
    if cpus >= 8 {
        8
    } else if cpus >= 6 {
        6
    } else if cpus >= 4 {
        4
    } else if cpus >= 2 {
        2
    } else {
        1
    }
}

/// The concurrency offered for a machine with `cpu_count` CPUs.
pub fn default_concurrency(cpu_count: usize) -> (c: usize)
    ensures
        c == concurrency_for(cpu_count as nat),
{
    let valid: [usize; 5] = [1, 2, 4, 6, 8];
    let mut i: usize = 5;
    while i > 0
        invariant
            i <= 5,
            valid@ == seq![1usize, 2, 4, 6, 8],
            forall|j: int| i <= j < 5 ==> valid@[j] > cpu_count,
        decreases i,
    {
        if valid[i - 1] <= cpu_count {
            return valid[i - 1];
        }
        i = i - 1;
    }
    1
}

/// The number of logical CPUs (`num_cpus::get`), which its documentation
/// promises to be at least 1.
#[verifier::external_body]
fn cpu_count() -> (n: usize)
    ensures
        n >= 1,
{
    num_cpus::get()
}

impl AppSettings {
    /// The default settings for this machine.
    pub open spec fn is_default_for(self, cpus: nat) -> bool {
        &&& self.sound_enabled
        &&& self.output_format_video@ == "mp4"@
        &&& self.output_format_audio@ == "mp3"@
        &&& self.output_path@.len() == 0
        &&& self.concurrency == concurrency_for(cpus)
    }
}

impl Default for AppSettings {
    /// Sound on, `mp4` for video, `mp3` for audio, no output path, and the
    /// concurrency offered for this machine's CPU count.
    fn default() -> (s: Self)
        ensures
            exists|cpus: nat| cpus >= 1 && s.is_default_for(cpus),
    {
        let cpus = cpu_count();
        let s = AppSettings {
            sound_enabled: true,
            output_format_video: "mp4".to_owned(),
            output_format_audio: "mp3".to_owned(),
            output_path: String::new(),
            concurrency: default_concurrency(cpus),
        };
        assert(s.is_default_for(cpus as nat));
        s
    }
}

// ---------------------------------------------------------------------------
// Results of a run
// ---------------------------------------------------------------------------

/// The number of successful results.
pub open spec fn success_count(results: Seq<ConversionResult>) -> nat
    decreases results.len(),
{
    if results.len() == 0 {
        0
    } else {
        success_count(results.drop_last()) + if results.last().success {
            1nat
        } else {
            0nat
        }
    }
}

proof fn lemma_success_count_le(results: Seq<ConversionResult>)
    ensures
        success_count(results) <= results.len(),
    decreases results.len(),
{
    if results.len() > 0 {
        lemma_success_count_le(results.drop_last());
    }
}

/// The event sent when a run has finished: how many results are successes,
/// how many there are, and the results.
pub fn completion_event(results: Vec<ConversionResult>) -> (e: ConversionCompleteEvent)
    ensures
        e.success_count == success_count(results@),
        e.total_count == results@.len(),
        e.success_count <= e.total_count,
        e.results == results,
{
    let mut n: usize = 0;
    let mut i: usize = 0;
    while i < results.len()
        invariant
            i <= results@.len(),
            n == success_count(results@.take(i as int)),
        decreases results@.len() - i,
    {
        proof {
            assert(results@.take(i + 1).drop_last() =~= results@.take(i as int));
            lemma_success_count_le(results@.take(i as int));
        }
        if results[i].success {
            n = n + 1;
        }
        i = i + 1;
    }
    proof {
        assert(results@.take(results@.len() as int) =~= results@);
        lemma_success_count_le(results@);
    }
    let total = results.len();
    ConversionCompleteEvent { success_count: n, total_count: total, results }
}

/// The error of every file of a run whose output folder is not absolute.
pub open spec fn bad_output_dir_error() -> Seq<char> {
    "\u{8f93}\u{51fa}\u{8def}\u{5f84}\u{65e0}\u{6548}\u{ff1a}\u{5fc5}\u{987b}\u{662f}\u{7edd}\u{5bf9}\u{8def}\u{5f84}"@
}

/// The results of a run decided by its output folder alone: none when the
/// folder is absolute (`dir_ok`), so the files are converted; else a failed
/// result for every file with the error `输出路径无效：必须是绝对路径`.
pub fn output_dir_results(dir_ok: bool, files: &Vec<MediaFile>) -> (r: Option<Vec<ConversionResult>>)
    ensures
        r.is_none() == dir_ok,
        r matches Some(v) ==> v@.len() == files@.len() && forall|i: int|
            0 <= i < files@.len() ==> {
                &&& (#[trigger] v@[i]).file_id == files@[i].id
                &&& !v@[i].success
                &&& v@[i].output_path.is_none()
                &&& v@[i].error matches Some(e) && e@ == bad_output_dir_error()
            },
{
    if dir_ok {
        None
    } else {
        let error = "\u{8f93}\u{51fa}\u{8def}\u{5f84}\u{65e0}\u{6548}\u{ff1a}\u{5fc5}\u{987b}\u{662f}\u{7edd}\u{5bf9}\u{8def}\u{5f84}";
        Some(failed_results(files, error))
    }
}

/// A failed result for every file, all with the same error.
pub fn failed_results(files: &Vec<MediaFile>, error: &str) -> (r: Vec<ConversionResult>)
    ensures
        r@.len() == files@.len(),
        forall|i: int|
            0 <= i < files@.len() ==> {
                &&& (#[trigger] r@[i]).file_id == files@[i].id
                &&& !r@[i].success
                &&& r@[i].output_path.is_none()
                &&& r@[i].error matches Some(e) && e@ == error@
            },
{
    let mut r: Vec<ConversionResult> = Vec::new();
    let mut i: usize = 0;
    while i < files.len()
        invariant
            i <= files@.len(),
            r@.len() == i,
            forall|j: int|
                0 <= j < i ==> {
                    &&& (#[trigger] r@[j]).file_id == files@[j].id
                    &&& !r@[j].success
                    &&& r@[j].output_path.is_none()
                    &&& r@[j].error matches Some(e) && e@ == error@
                },
        decreases files@.len() - i,
    {
        r.push(
            ConversionResult {
                file_id: files[i].id.clone(),
                success: false,
                output_path: None,
                error: Some(error.to_owned()),
            },
        );
        i = i + 1;
    }
    r
}

} // verus!
