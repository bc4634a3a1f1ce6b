//! Naming of a run's artifacts. A run is identified by the source's base
//! name and the run date as an eight-digit code; segment `i` lives locally
//! as `{i}.zip` inside the run folder and remotely under
//! `{destinationPrefix?}/{base}-{date}/{i}.zip`. Keys of one run are proved
//! collision-free across segment indices.

use vstd::prelude::*;
use vstd::arithmetic::div_mod::{lemma_div_decreases, lemma_fundamental_div_mod};
use vstd::string::StringExecFns;
use chrono::Datelike;

verus! {

/// The decimal digit character for a value below ten.
pub open spec fn digit_char(d: nat) -> char {
    if d == 0 {
        '0'
    } else if d == 1 {
        '1'
    } else if d == 2 {
        '2'
    } else if d == 3 {
        '3'
    } else if d == 4 {
        '4'
    } else if d == 5 {
        '5'
    } else if d == 6 {
        '6'
    } else if d == 7 {
        '7'
    } else if d == 8 {
        '8'
    } else {
        '9'
    }
}

/// The value a decimal digit character stands for.
pub open spec fn digit_val(ch: char) -> nat {
    if ch == '0' {
        0
    } else if ch == '1' {
        1
    } else if ch == '2' {
        2
    } else if ch == '3' {
        3
    } else if ch == '4' {
        4
    } else if ch == '5' {
        5
    } else if ch == '6' {
        6
    } else if ch == '7' {
        7
    } else if ch == '8' {
        8
    } else {
        9
    }
}

/// The decimal digits of `n`, most significant first, with no leading zero
/// (a single zero for `n == 0`).
pub open spec fn dec_digits(n: nat) -> Seq<char>
    decreases n,
    via dec_digits_decreases
{
    if n < 10 {
        seq![digit_char(n)]
    } else {
        dec_digits(n / 10).push(digit_char(n % 10))
    }
}

#[via_fn]
proof fn dec_digits_decreases(n: nat) {
    if n >= 10 {
        lemma_div_decreases(n as int, 10);
    }
}

/// The value a digit sequence denotes.
pub open spec fn dec_val(s: Seq<char>) -> nat
    decreases s.len(),
{
    if s.len() == 0 {
        0
    } else {
        dec_val(s.drop_last()) * 10 + digit_val(s.last())
    }
}

proof fn lemma_dec_digits_roundtrip(n: nat)
    ensures
        dec_val(dec_digits(n)) == n,
    decreases n,
{
    if n < 10 {
        let s = dec_digits(n);
        assert(s == seq![digit_char(n)]);
        assert(s.drop_last() =~= Seq::<char>::empty());
        assert(dec_val(s) == dec_val(Seq::<char>::empty()) * 10 + digit_val(digit_char(n)));
    } else {
        lemma_div_decreases(n as int, 10);
        lemma_dec_digits_roundtrip(n / 10);
        let s = dec_digits(n);
        assert(s == dec_digits(n / 10).push(digit_char(n % 10)));
        assert(s.drop_last() =~= dec_digits(n / 10));
        assert(s.last() == digit_char(n % 10));
        assert(n % 10 < 10);
        assert(digit_val(digit_char(n % 10)) == n % 10);
        lemma_fundamental_div_mod(n as int, 10);
    }
}

/// Distinct numbers never share a digit string.
pub proof fn lemma_dec_digits_injective(m: nat, n: nat)
    requires
        dec_digits(m) == dec_digits(n),
    ensures
        m == n,
{
    lemma_dec_digits_roundtrip(m);
    lemma_dec_digits_roundtrip(n);
}

/// The last `width` decimal digits of `n`, zero-padded to exactly `width`
/// characters.
pub open spec fn padded_digits(n: nat, width: nat) -> Seq<char>
    decreases width,
{
    if width == 0 {
        Seq::empty()
    } else {
        padded_digits(n / 10, (width - 1) as nat).push(digit_char(n % 10))
    }
}

/// The decimal digit below ten as a one-character string.
fn digit_str(d: u64) -> (r: &'static str)
    requires
        d < 10,
    ensures
        r@ == seq![digit_char(d as nat)],
{
    proof {
        reveal_strlit("0");
        reveal_strlit("1");
        reveal_strlit("2");
        reveal_strlit("3");
        reveal_strlit("4");
        reveal_strlit("5");
        reveal_strlit("6");
        reveal_strlit("7");
        reveal_strlit("8");
        reveal_strlit("9");
    }
    match d {
        0 => "0",
        1 => "1",
        2 => "2",
        3 => "3",
        4 => "4",
        5 => "5",
        6 => "6",
        7 => "7",
        8 => "8",
        _ => "9",
    }
}

/// `n` in decimal, no leading zero.
pub fn decimal_string(n: u64) -> (r: String)
    ensures
        r@ == dec_digits(n as nat),
    decreases n,
{
    if n < 10 {
        String::from_str(digit_str(n))
    } else {
        proof {
            lemma_div_decreases(n as int, 10);
        }
        let mut s = decimal_string(n / 10);
        s.append(digit_str(n % 10));
        proof {
            assert(dec_digits((n / 10) as nat).push(digit_char((n % 10) as nat))
                =~= dec_digits((n / 10) as nat) + seq![digit_char((n % 10) as nat)]);
        }
        s
    }
}

/// The last `width` digits of `n`, zero-padded to `width` characters.
pub fn pad_digits(n: u64, width: u64) -> (r: String)
    ensures
        r@ == padded_digits(n as nat, width as nat),
    decreases width,
{
    if width == 0 {
        String::new()
    } else {
        let mut s = pad_digits(n / 10, width - 1);
        s.append(digit_str(n % 10));
        proof {
            assert(padded_digits((n / 10) as nat, (width - 1) as nat).push(
                digit_char((n % 10) as nat),
            ) =~= padded_digits((n / 10) as nat, (width - 1) as nat)
                + seq![digit_char((n % 10) as nat)]);
        }
        s
    }
}

/// A calendar date, as the run timestamp. The trusted clock call below
/// promises the month and day ranges; the year is reported as given.
pub struct Date {
    pub year: u64,
    pub month: u64,
    pub day: u64,
}

/// Relies on chrono::Local::now and chrono::Datelike (year, month, day) for
/// the current local calendar date: the month is 1 to 12 and the day is 1 to
/// 31. The result depends on the clock, so nothing else is promised; a year
/// before the common era is reported as zero, since the date code carries no
/// sign. chrono aborts if the system clock stands before the Unix epoch — an
/// environmental condition no argument can exclude.
#[verifier::external_body]
pub fn current_date() -> (d: Date)
    ensures
        1 <= d.month <= 12,
        1 <= d.day <= 31,
{
    let now = chrono::Local::now();
    let y = now.year();
    Date {
        year: if y > 0 {
            y as u64
        } else {
            0
        },
        month: now.month() as u64,
        day: now.day() as u64,
    }
}

/// The `YYYYMMDD` code of a date: four year digits, two month digits, two
/// day digits, each zero-padded.
pub open spec fn date_code(d: Date) -> Seq<char> {
    padded_digits(d.year as nat, 4) + padded_digits(d.month as nat, 2) + padded_digits(
        d.day as nat,
        2,
    )
}

/// Format a date as its eight-character `YYYYMMDD` code.
pub fn format_date(d: &Date) -> (r: String)
    ensures
        r@ == date_code(*d),
{
    let mut s = pad_digits(d.year, 4);
    let m = pad_digits(d.month, 2);
    s.append(m.as_str());
    let day = pad_digits(d.day, 2);
    s.append(day.as_str());
    s
}

/// The resolved configuration of one backup run, immutable for the run's
/// duration.
pub struct BackupJob {
    /// The base name of the source directory, naming the run folder.
    pub source_base: String,
    /// The bucket the segments are sent to.
    pub bucket: String,
    /// Optional folder inside the bucket that the run folder goes under.
    pub destination_prefix: Option<String>,
    /// The local directory the sealed segments are staged in.
    pub staging_dir: String,
    /// The run date, naming the run folder.
    pub date: Date,
}

/// The folder one run's segments share: `{base}-{YYYYMMDD}`.
pub open spec fn run_folder(job: BackupJob) -> Seq<char> {
    job.source_base@ + "-"@ + date_code(job.date)
}

/// Everything of a remote key before the segment digits:
/// `{destinationPrefix?/}{base}-{date}/`.
pub open spec fn key_prefix(job: BackupJob) -> Seq<char> {
    (match job.destination_prefix {
        Some(p) => p@ + "/"@,
        None => Seq::<char>::empty(),
    }) + run_folder(job) + "/"@
}

/// The remote object key of segment `i`:
/// `{destinationPrefix?/}{base}-{date}/{i}.zip`.
pub open spec fn key_spec(job: BackupJob, i: nat) -> Seq<char> {
    key_prefix(job) + dec_digits(i) + ".zip"@
}

/// The name of the run folder: `{base}-{YYYYMMDD}`.
pub fn run_folder_name(job: &BackupJob) -> (r: String)
    ensures
        r@ == run_folder(*job),
{
    let mut s = job.source_base.clone();
    s.append("-");
    let code = format_date(&job.date);
    s.append(code.as_str());
    s
}

/// The file name segment `i` is staged under: `{i}.zip`.
pub fn segment_file_name(index: usize) -> (r: String)
    ensures
        r@ == dec_digits(index as nat) + ".zip"@,
{
    let mut s = decimal_string(index as u64);
    s.append(".zip");
    s
}

/// Derive the remote object key for segment `index` of this run.
pub fn derive_key(job: &BackupJob, index: usize) -> (r: String)
    ensures
        r@ == key_spec(*job, index as nat),
{
    let mut s = String::new();
    match &job.destination_prefix {
        Some(p) => {
            s.append(p.as_str());
            s.append("/");
        }
        None => {}
    }
    let folder = run_folder_name(job);
    s.append(folder.as_str());
    s.append("/");
    let digits = decimal_string(index as u64);
    s.append(digits.as_str());
    s.append(".zip");
    proof {
        assert(s@ =~= key_spec(*job, index as nat));
    }
    s
}

/// The canonical remote location string of an uploaded object:
/// `gs://{bucket}/{key}`.
pub fn remote_location(bucket: &str, key: &str) -> (r: String)
    ensures
        r@ == "gs://"@ + bucket@ + "/"@ + key@,
{
    let mut s = String::from_str("gs://");
    s.append(bucket);
    s.append("/");
    s.append(key);
    proof {
        assert(s@ =~= "gs://"@ + bucket@ + "/"@ + key@);
    }
    s
}

proof fn lemma_affix_cancel(p: Seq<char>, z: Seq<char>, a: Seq<char>, b: Seq<char>)
    requires
        p + a + z == p + b + z,
    ensures
        a == b,
{
    assert((p + a + z).len() == p.len() + a.len() + z.len());
    assert((p + b + z).len() == p.len() + b.len() + z.len());
    assert(a.len() == b.len());
    assert forall|k: int| 0 <= k < a.len() implies a[k] == b[k] by {
        assert((p + a + z)[p.len() + k] == a[k]);
        assert((p + b + z)[p.len() + k] == b[k]);
    }
    assert(a =~= b);
}

/// Remote keys of one run never collide: two segment indices of the same
/// run that share a key are the same index.
pub proof fn lemma_keys_unique(job: BackupJob, i: nat, j: nat)
    requires
        key_spec(job, i) == key_spec(job, j),
    ensures
        i == j,
{
    lemma_affix_cancel(key_prefix(job), ".zip"@, dec_digits(i), dec_digits(j));
    lemma_dec_digits_injective(i, j);
}

/// The remote keys for all `n` segments of a run, in index order, pairwise
/// distinct.
pub fn plan_uploads(job: &BackupJob, n: usize) -> (keys: Vec<String>)
    ensures
        keys@.len() == n,
        forall|i: int| 0 <= i < n ==> (#[trigger] keys@[i])@ == key_spec(*job, i as nat),
        forall|i: int, j: int|
            0 <= i < n && 0 <= j < n && i != j ==> (#[trigger] keys@[i])@ != (#[trigger] keys@[j])@,
{
    let mut keys: Vec<String> = Vec::new();
    let mut i: usize = 0;
    while i < n
        invariant
            i <= n,
            keys@.len() == i,
            forall|k: int| 0 <= k < i ==> (#[trigger] keys@[k])@ == key_spec(*job, k as nat),
        decreases n - i,
    {
        let k = derive_key(job, i);
        keys.push(k);
        i = i + 1;
    }
    proof {
        assert forall|a: int, b: int|
            0 <= a < n && 0 <= b < n && a != b implies (#[trigger] keys@[a])@
            != (#[trigger] keys@[b])@ by {
            if keys@[a]@ == keys@[b]@ {
                lemma_keys_unique(*job, a as nat, b as nat);
            }
        }
    }
    keys
}

} // verus!
