//! The model-asset downloader's decision core: which file to fetch, how to
//! resume a partial transfer, what to make of the server's answer, and how
//! often to report progress.  The network and filesystem edges stay with
//! the caller; every choice they act on is made here.

use vstd::prelude::*;

verus! {

/// Milliseconds that must pass between two progress reports for one file.
pub const REPORT_INTERVAL_MS: i64 = 500;

/// One file of the remote model repository's index.
#[derive(Debug, Clone)]
pub struct RepoFile {
    pub name: String,
    pub path: String,
    pub size: u64,
    pub sha256: String,
}

/// The index entry whose name matches, if any: the first such position.
pub open spec fn found_repo_file(files: Seq<RepoFile>, name: Seq<char>, i: int) -> bool {
    &&& 0 <= i < files.len()
    &&& files[i].name@ == name
    &&& forall|j: int| 0 <= j < i ==> (#[trigger] files[j].name@) != name
}

/// Find the first index entry with the requested name.
pub fn find_repo_file(files: &Vec<RepoFile>, name: &String) -> (r: Option<usize>)
    ensures
        r matches Some(i) ==> found_repo_file(files@, name@, i as int),
        r is None ==> forall|j: int| 0 <= j < files@.len() ==> (#[trigger] files@[j].name@)
            != name@,
{
    let mut j: usize = 0;
    while j < files.len()
        invariant
            j <= files@.len(),
            forall|p: int| 0 <= p < j ==> (#[trigger] files@[p].name@) != name@,
        decreases files@.len() - j,
    {
        if files[j].name == *name {
            return Some(j);
        }
        j = j + 1;
    }
    None
}

/// The plan for a transfer, from the bytes already on disk and the remote
/// size: a file of exactly the remote size is already complete; a shorter
/// one resumes with a ranged request from its end; a longer one is stale
/// and is refetched whole.
#[derive(Debug, Clone, Copy, PartialEq, Eq, Structural)]
pub enum ResumePlan {
    AlreadyComplete,
    Resume { offset: u64 },
    Restart,
}

/// See [`ResumePlan`].
pub open spec fn resume_plan_spec(existing: u64, size: u64) -> ResumePlan {
    if existing == size {
        ResumePlan::AlreadyComplete
    } else if existing < size {
        ResumePlan::Resume { offset: existing }
    } else {
        ResumePlan::Restart
    }
}

/// Decide how to transfer; see [`ResumePlan`].
pub fn resume_plan(existing: u64, size: u64) -> (r: ResumePlan)
    ensures
        r == resume_plan_spec(existing, size),
{
    if existing == size {
        ResumePlan::AlreadyComplete
    } else if existing < size {
        ResumePlan::Resume { offset: existing }
    } else {
        ResumePlan::Restart
    }
}

/// What to do with the server's answer: rewind the file when the server
/// sent a full body to a ranged request or the file is longer than the
/// remote size, and accept only a success status.
#[derive(Debug, Clone, Copy, PartialEq, Eq, Structural)]
pub struct ResponseDecision {
    pub truncate: bool,
    pub accept: bool,
}

/// See [`ResponseDecision`].
pub open spec fn response_decision_spec(status: u16, existing: u64, size: u64) -> ResponseDecision {
    ResponseDecision {
        truncate: (status == 200 && existing > 0) || existing > size,
        accept: 200 <= status < 300,
    }
}

/// Judge the server's answer; see [`ResponseDecision`].
pub fn response_decision(status: u16, existing: u64, size: u64) -> (r: ResponseDecision)
    ensures
        r == response_decision_spec(status, existing, size),
{
    ResponseDecision {
        truncate: (status == 200 && existing > 0) || existing > size,
        accept: 200 <= status && status < 300,
    }
}

/// The file after the response body is applied: a truncated file holds the
/// body alone, otherwise the body is appended.
pub open spec fn apply_response(file: Seq<u8>, truncate: bool, payload: Seq<u8>) -> Seq<u8> {
    if truncate {
        payload
    } else {
        file + payload
    }
}

/// Resumability law: with `n` bytes already on disk and a larger remote
/// size, the plan is a ranged request from offset `n`; when the server
/// honours it (206) and streams the remainder of its payload, the final
/// file has exactly the remote length, and its bytes from offset `n` on
/// are the server payload's.
pub proof fn lemma_download_resumable(file: Seq<u8>, full: Seq<u8>)
    requires
        file.len() < full.len(),
        full.len() <= u64::MAX,
    ensures
        resume_plan_spec(file.len() as u64, full.len() as u64) == (ResumePlan::Resume {
            offset: file.len() as u64,
        }),
        ({
            let d = response_decision_spec(206, file.len() as u64, full.len() as u64);
            let result = apply_response(file, d.truncate, full.skip(file.len() as int));
            &&& d.accept
            &&& !d.truncate
            &&& result.len() == full.len()
            &&& result.skip(file.len() as int) == full.skip(file.len() as int)
        }),
{
    let d = response_decision_spec(206, file.len() as u64, full.len() as u64);
    let result = apply_response(file, d.truncate, full.skip(file.len() as int));
    assert(result.skip(file.len() as int) =~= full.skip(file.len() as int));
}

/// Full-body fallback law: when the server answers a ranged request with
/// 200 and the whole payload, the file is truncated first, so the final
/// file is exactly the payload.
pub proof fn lemma_download_restart_on_full_body(file: Seq<u8>, full: Seq<u8>)
    requires
        0 < file.len() <= u64::MAX,
        full.len() <= u64::MAX,
    ensures
        ({
            let d = response_decision_spec(200, file.len() as u64, full.len() as u64);
            &&& d.accept
            &&& d.truncate
            &&& apply_response(file, d.truncate, full) == full
        }),
{
}

/// The decimal digits of `n`, most significant first.
pub open spec fn decimal_digits(n: int) -> Seq<char>
    decreases n,
{
    if n < 0 {
        Seq::empty()
    } else if n < 10 {
        seq![decimal_digit(n)]
    } else {
        decimal_digits(n / 10).push(decimal_digit(n % 10))
    }
}

/// The character for one decimal digit.
pub open spec fn decimal_digit(d: int) -> char {
    if d == 0 {
        '0'
    } else if d == 1 {
        '1'
    } else if d == 2 {
        '2'
    } else if d == 3 {
        '3'
    } else if d == 4 {
        '4'
    } else if d == 5 {
        '5'
    } else if d == 6 {
        '6'
    } else if d == 7 {
        '7'
    } else if d == 8 {
        '8'
    } else {
        '9'
    }
}

/// The digit characters of a digit-value sequence.
pub open spec fn digit_chars(ds: Seq<u64>) -> Seq<char> {
    ds.map_values(|d: u64| decimal_digit(d as int))
}

/// Append one decimal digit character.
fn append_digit(r: &mut String, d: u64)
    requires
        d < 10,
    ensures
        final(r)@ == old(r)@ + seq![decimal_digit(d as int)],
{
    if d == 0 {
        r.append("0");
        proof {
            reveal_strlit("0");
            assert(r@ =~= old(r)@ + seq![decimal_digit(0)]);
        }
    } else if d == 1 {
        r.append("1");
        proof {
            reveal_strlit("1");
            assert(r@ =~= old(r)@ + seq![decimal_digit(1)]);
        }
    } else if d == 2 {
        r.append("2");
        proof {
            reveal_strlit("2");
            assert(r@ =~= old(r)@ + seq![decimal_digit(2)]);
        }
    } else if d == 3 {
        r.append("3");
        proof {
            reveal_strlit("3");
            assert(r@ =~= old(r)@ + seq![decimal_digit(3)]);
        }
    } else if d == 4 {
        r.append("4");
        proof {
            reveal_strlit("4");
            assert(r@ =~= old(r)@ + seq![decimal_digit(4)]);
        }
    } else if d == 5 {
        r.append("5");
        proof {
            reveal_strlit("5");
            assert(r@ =~= old(r)@ + seq![decimal_digit(5)]);
        }
    } else if d == 6 {
        r.append("6");
        proof {
            reveal_strlit("6");
            assert(r@ =~= old(r)@ + seq![decimal_digit(6)]);
        }
    } else if d == 7 {
        r.append("7");
        proof {
            reveal_strlit("7");
            assert(r@ =~= old(r)@ + seq![decimal_digit(7)]);
        }
    } else if d == 8 {
        r.append("8");
        proof {
            reveal_strlit("8");
            assert(r@ =~= old(r)@ + seq![decimal_digit(8)]);
        }
    } else {
        r.append("9");
        proof {
            reveal_strlit("9");
            assert(r@ =~= old(r)@ + seq![decimal_digit(9)]);
        }
    }
}

/// Print a value's decimal digits, most significant first.
fn u64_to_decimal(n: u64) -> (r: String)
    ensures
        r@ == decimal_digits(n as int),
{
    if n == 0 {
        let mut r = String::new();
        append_digit(&mut r, 0);
        proof {
            assert(r@ =~= decimal_digits(0));
        }
        return r;
    }
    // collect the digits, least significant first
    let mut digits: Vec<u64> = Vec::new();
    let mut m = n;
    while m > 0
        invariant
            m <= n,
            m > 0 ==> decimal_digits(n as int) == decimal_digits(m as int) + digit_chars(
                digits@,
            ).reverse(),
            m == 0 ==> decimal_digits(n as int) == digit_chars(digits@).reverse(),
            forall|j: int| 0 <= j < digits@.len() ==> (#[trigger] digits@[j]) < 10,
        decreases m,
    {
        let ghost before = digits@;
        let d = m % 10;
        digits.push(d);
        m = m / 10;
        proof {
            assert(digit_chars(before.push(d)).reverse() =~= seq![decimal_digit(d as int)]
                + digit_chars(before).reverse());
            if m > 0 {
                assert(decimal_digits(m as int).push(decimal_digit(d as int)) + digit_chars(
                    before,
                ).reverse() =~= decimal_digits(m as int) + digit_chars(before.push(d)).reverse());
            } else {
                assert(seq![decimal_digit(d as int)] + digit_chars(before).reverse()
                    =~= digit_chars(before.push(d)).reverse());
            }
        }
    }
    // emit them most significant first
    let ghost target = decimal_digits(n as int);
    let len = digits.len();
    let mut r = String::new();
    let mut j: usize = len;
    proof {
        assert(r@ =~= target.take(0));
    }
    while j > 0
        invariant
            j <= len == digits@.len(),
            target == decimal_digits(n as int),
            target == digit_chars(digits@).reverse(),
            forall|p: int| 0 <= p < digits@.len() ==> (#[trigger] digits@[p]) < 10,
            r@ == target.take(len - j),
        decreases j,
    {
        j = j - 1;
        let d = digits[j];
        proof {
            assert(target[len - 1 - (j as int)] == digit_chars(digits@)[j as int]);
        }
        append_digit(&mut r, d);
        proof {
            assert(r@ =~= target.take(len - j));
        }
        // j already stepped down: the prefix has grown by one digit
    }
    proof {
        assert(target.take(len as int) =~= target);
    }
    r
}

/// The `Range` header value asking for bytes from `offset` on.
pub fn range_header_value(offset: u64) -> (r: String)
    ensures
        r@ == "bytes="@ + decimal_digits(offset as int) + "-"@,
{
    let mut r = String::from_str("bytes=");
    let digits = u64_to_decimal(offset);
    r.append(digits.as_str());
    r.append("-");
    r
}

/// The repository index URL for a model id.
pub fn files_url(model_id: &String) -> (r: String)
    ensures
        r@ == "https://modelscope.cn/api/v1/models/"@ + model_id@ + "/repo/files?Recursive=true"@,
{
    let mut r = String::from_str("https://modelscope.cn/api/v1/models/");
    r.append(model_id.as_str());
    r.append("/repo/files?Recursive=true");
    r
}

/// The byte-stream URL for one path of a model repository.
pub fn download_url(model_id: &String, path: &String) -> (r: String)
    ensures
        r@ == "https://modelscope.cn/models/"@ + model_id@ + "/resolve/master/"@ + path@,
{
    let mut r = String::from_str("https://modelscope.cn/models/");
    r.append(model_id.as_str());
    r.append("/resolve/master/");
    r.append(path.as_str());
    r
}

/// The in-flight name of a transfer: its final path plus `.downloading`.
pub fn downloading_path(path: &String) -> (r: String)
    ensures
        r@ == path@ + ".downloading"@,
{
    let mut r = path.clone();
    r.append(".downloading");
    r
}

/// What one clock reading does to the throttle: at least the report
/// interval past the last report, the report goes out and the clock is
/// remembered; otherwise nothing changes.
pub open spec fn gate_step(last: int, now: int) -> (bool, int) {
    if now - last >= REPORT_INTERVAL_MS {
        (true, now)
    } else {
        (false, last)
    }
}

/// The clock readings at which reports actually go out.
pub open spec fn gate_emits(last: int, times: Seq<int>) -> Seq<int>
    decreases times.len(),
{
    if times.len() == 0 {
        Seq::empty()
    } else {
        let st = gate_step(last, times[0]);
        if st.0 {
            seq![times[0]] + gate_emits(st.1, times.drop_first())
        } else {
            gate_emits(st.1, times.drop_first())
        }
    }
}

proof fn lemma_gate_spacing_from(last: int, times: Seq<int>)
    ensures
        forall|j: int|
            0 <= j < gate_emits(last, times).len() ==> #[trigger] gate_emits(last, times)[j]
                >= last + REPORT_INTERVAL_MS,
        forall|j: int|
            0 <= j < gate_emits(last, times).len() - 1 ==> gate_emits(last, times)[j]
                + REPORT_INTERVAL_MS <= #[trigger] gate_emits(last, times)[j + 1],
    decreases times.len(),
{
    if times.len() > 0 {
        let st = gate_step(last, times[0]);
        lemma_gate_spacing_from(st.1, times.drop_first());
        let whole = gate_emits(last, times);
        let rest = gate_emits(st.1, times.drop_first());
        if st.0 {
            assert(whole == seq![times[0]] + rest);
            assert forall|j: int| 0 <= j < whole.len() implies #[trigger] whole[j] >= last
                + REPORT_INTERVAL_MS by {
                if j == 0 {
                    assert(whole[0] == times[0]);
                } else {
                    assert(whole[j] == rest[j - 1]);
                }
            }
            assert forall|j: int| 0 <= j < whole.len() - 1 implies whole[j] + REPORT_INTERVAL_MS
                <= #[trigger] whole[j + 1] by {
                if j == 0 {
                    assert(whole[0] == times[0]);
                    assert(whole[1] == rest[0]);
                } else {
                    assert(whole[j] == rest[j - 1]);
                    assert(whole[j + 1] == rest[j]);
                    assert(rest[(j - 1)] + REPORT_INTERVAL_MS <= rest[(j - 1) + 1]);
                }
            }
        } else {
            assert(whole == rest);
        }
    }
}

/// Progress-throttling law: whatever clock readings a transfer sees, two
/// consecutive reports for one file are at least the report interval
/// apart.
pub proof fn lemma_progress_throttling(last: int, times: Seq<int>)
    ensures
        forall|j: int|
            0 <= j < gate_emits(last, times).len() - 1 ==> gate_emits(last, times)[j]
                + REPORT_INTERVAL_MS <= #[trigger] gate_emits(last, times)[j + 1],
{
    lemma_gate_spacing_from(last, times);
}

/// The progress state of one transfer, shared between the byte-streaming
/// loop and the reporter.
#[derive(Debug)]
pub struct DownloadProgress {
    pub file_name: String,
    pub size: u64,
    pub position: u64,
    pub last_report_ms: i64,
}

impl DownloadProgress {
    /// Fresh progress for a file: nothing known, nothing reported.
    pub fn new(file_name: String) -> (r: Self)
        ensures
            r.file_name == file_name,
            r.size == 0,
            r.position == 0,
            r.last_report_ms == 0,
    {
        DownloadProgress { file_name, size: 0, position: 0, last_report_ms: 0 }
    }

    /// Record the remote size.
    pub fn set_length(&mut self, len: u64)
        ensures
            *final(self) == (DownloadProgress { size: len, ..*old(self) }),
    {
        self.size = len;
    }

    /// Set the byte counter, as when a resume starts mid-file.
    pub fn set_position(&mut self, pos: u64)
        ensures
            *final(self) == (DownloadProgress { position: pos, ..*old(self) }),
    {
        self.position = pos;
    }

    /// Advance the byte counter by one streamed chunk.
    pub fn inc(&mut self, delta: u64)
        requires
            old(self).position + delta <= u64::MAX,
        ensures
            *final(self) == (DownloadProgress {
                position: (old(self).position + delta) as u64,
                ..*old(self)
            }),
    {
        self.position = self.position + delta;
    }

    /// Snap the byte counter to the remote size at completion.
    pub fn finish(&mut self)
        ensures
            *final(self) == (DownloadProgress { position: old(self).size, ..*old(self) }),
    {
        self.position = self.size;
    }

    /// Decide whether to report now: see [`gate_step`].  Returns whether
    /// the report goes out.
    pub fn report_due(&mut self, now_ms: i64) -> (r: bool)
        ensures
            (r, final(self).last_report_ms as int) == gate_step(
                old(self).last_report_ms as int,
                now_ms as int,
            ),
            final(self).file_name == old(self).file_name,
            final(self).size == old(self).size,
            final(self).position == old(self).position,
    {
        let gap_due = (now_ms as i128) - (self.last_report_ms as i128) >= (
        REPORT_INTERVAL_MS as i128);
        if gap_due {
            self.last_report_ms = now_ms;
            true
        } else {
            false
        }
    }
}

/// Relies on chrono's conversion from the system clock: the wall clock in
/// milliseconds since the Unix epoch, negative for a clock set before it
/// (unlike `Utc::now`, the conversion does not panic there).  Nothing is
/// promised of the value.
#[verifier::external_body]
pub fn now_timestamp_millis() -> (r: i64) {
    let now: chrono::DateTime<chrono::Utc> = std::time::SystemTime::now().into();
    now.timestamp_millis()
}

impl DownloadProgress {
    /// Decide whether to report at the present wall clock.  A report that
    /// goes out moves the remembered clock at least one interval forward.
    pub fn report_due_now(&mut self) -> (r: bool)
        ensures
            final(self).file_name == old(self).file_name,
            final(self).size == old(self).size,
            final(self).position == old(self).position,
            r ==> final(self).last_report_ms >= old(self).last_report_ms + REPORT_INTERVAL_MS,
            !r ==> final(self).last_report_ms == old(self).last_report_ms,
    {
        let now = now_timestamp_millis();
        self.report_due(now)
    }
}

/// The registry of in-flight transfers, by file name.  The tasks
/// themselves live with the caller; this keeps which names are active, one
/// entry per name.
pub struct Downloads {
    pub names: Vec<String>,
}

impl Downloads {
    /// No name appears twice.
    pub open spec fn wf(&self) -> bool {
        forall|a: int, b: int|
            0 <= a < b < self.names@.len() ==> (#[trigger] self.names@[a])@ != (
            #[trigger] self.names@[b])@
    }

    /// An empty registry.
    pub fn new() -> (r: Self)
        ensures
            r.wf(),
            r.names@.len() == 0,
    {
        Downloads { names: Vec::new() }
    }

    /// Is a transfer under this name active?
    pub fn contains(&self, file_name: &String) -> (r: bool)
        ensures
            r == exists|j: int|
                0 <= j < self.names@.len() && (#[trigger] self.names@[j])@ == file_name@,
    {
        let mut j: usize = 0;
        while j < self.names.len()
            invariant
                j <= self.names@.len(),
                forall|p: int| 0 <= p < j ==> (#[trigger] self.names@[p])@ != file_name@,
            decreases self.names@.len() - j,
        {
            if self.names[j] == *file_name {
                return true;
            }
            j = j + 1;
        }
        false
    }

    /// Register a transfer.  A second start for the same name supersedes
    /// the first: the name set is unchanged, and the caller replaces its
    /// task.  Returns whether an earlier transfer was superseded.
    pub fn start(&mut self, file_name: String) -> (superseded: bool)
        requires
            old(self).wf(),
        ensures
            final(self).wf(),
            exists|j: int|
                0 <= j < final(self).names@.len() && (#[trigger] final(self).names@[j])@
                    == file_name@,
            superseded == exists|j: int|
                0 <= j < old(self).names@.len() && (#[trigger] old(self).names@[j])@
                    == file_name@,
            superseded ==> final(self).names == old(self).names,
            !superseded ==> final(self).names@ == old(self).names@.push(file_name),
    {
        if self.contains(&file_name) {
            return true;
        }
        let ghost before = self.names@;
        let ghost fname = file_name@;
        self.names.push(file_name);
        proof {
            assert(self.names@[before.len() as int]@ == fname);
            assert forall|a: int, b: int|
                0 <= a < b < self.names@.len() implies (#[trigger] self.names@[a])@ != (
            #[trigger] self.names@[b])@ by {
                if b < before.len() {
                    assert(self.names@[a] == before[a]);
                    assert(self.names@[b] == before[b]);
                } else {
                    if a < before.len() {
                        assert(self.names@[a] == before[a]);
                    }
                }
            }
        }
        false
    }

    /// Cancel the transfer under this name, if any: the name leaves the
    /// registry and the caller aborts only the matching task.  Returns
    /// whether a transfer was found.
    pub fn stop(&mut self, file_name: &String) -> (found: bool)
        requires
            old(self).wf(),
        ensures
            final(self).wf(),
            found == exists|j: int|
                0 <= j < old(self).names@.len() && (#[trigger] old(self).names@[j])@
                    == file_name@,
            forall|j: int|
                0 <= j < final(self).names@.len() ==> (#[trigger] final(self).names@[j])@
                    != file_name@,
            !found ==> final(self).names == old(self).names,
    {
        let mut j: usize = 0;
        while j < self.names.len()
            invariant
                old(self).wf(),
                self.names == old(self).names,
                j <= self.names@.len(),
                forall|p: int| 0 <= p < j ==> (#[trigger] self.names@[p])@ != file_name@,
            decreases self.names@.len() - j,
        {
            if self.names[j] == *file_name {
                let ghost before = self.names@;
                self.names.remove(j);
                proof {
                    assert(self.names@ =~= before.subrange(0, j as int) + before.subrange(
                        j + 1,
                        before.len() as int,
                    ));
                    assert forall|p: int|
                        0 <= p < self.names@.len() implies (#[trigger] self.names@[p])@
                        != file_name@ by {
                        if p < j {
                            assert(self.names@[p] == before[p]);
                        } else {
                            assert(self.names@[p] == before[p + 1]);
                        }
                    }
                    assert forall|a: int, b: int|
                        0 <= a < b < self.names@.len() implies (#[trigger] self.names@[a])@ != (
                    #[trigger] self.names@[b])@ by {
                        let pa = if a < j {
                            a
                        } else {
                            a + 1
                        };
                        let pb = if b < j {
                            b
                        } else {
                            b + 1
                        };
                        assert(self.names@[a] == before[pa]);
                        assert(self.names@[b] == before[pb]);
                    }
                }
                return true;
            }
            j = j + 1;
        }
        false
    }
}

} // verus!
