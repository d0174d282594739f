//! The summary left at the root of a card that has been ingested.
//!
//! It exists for a person, months later, holding a card and wondering whether it is safe to
//! format. Appending the block to the card is the caller's; what it says is decided here.
use vstd::prelude::*;
use crate::scan::{describe_text, Skipped};
use crate::text::{chars_of, dec, dec_usize, extend, extend_str, join, join_vec, string_of, views};

verus! {

/// What one ingest run did to one card.
pub struct Summary {
    pub card_name: String,
    pub card_signature: String,
    pub destination: String,
    pub cameras: Vec<String>,
    pub ingested: usize,
    pub bytes: u64,
    pub skipped: Skipped,
    /// Relative path and reason, for anything that never made it.
    pub failures: Vec<(String, String)>,
    /// True when the run was stopped rather than finishing on its own.
    pub cancelled: bool,
}

impl Summary {
    pub open spec fn safe(&self) -> bool {
        self.failures@.len() == 0 && !self.cancelled && self.ingested > 0
    }

    /// The question the log exists to answer: nothing failed, the run was not cancelled, and
    /// something was ingested.
    pub fn safe_to_format(&self) -> (r: bool)
        ensures
            r == self.safe(),
    {
        self.failures.len() == 0 && !self.cancelled && self.ingested > 0
    }
}

/// `1 file`, `2 files`.
pub open spec fn plural_spec(count: nat, noun: Seq<char>) -> Seq<char> {
    if count == 1 {
        "1 "@ + noun
    } else {
        dec(count) + seq![' '] + noun + "s"@
    }
}

pub fn plural(count: usize, noun: &str) -> (r: String)
    ensures
        r@ == plural_spec(count as nat, noun@),
{
    let mut out: Vec<char> = Vec::new();
    if count == 1 {
        extend_str(&mut out, "1 ");
        extend_str(&mut out, noun);
    } else {
        let d = dec_usize(count);
        extend(&mut out, &d);
        out.push(' ');
        extend_str(&mut out, noun);
        extend_str(&mut out, "s");
    }
    string_of(&out)
}

/// The lines naming each failure.
pub open spec fn failures_text(f: Seq<(String, String)>) -> Seq<char>
    decreases f.len(),
{
    if f.len() == 0 {
        Seq::empty()
    } else {
        failures_text(f.drop_last()) + "               "@ + f.last().0@ + " — "@ + f.last().1@
            + "\n"@
    }
}

pub open spec fn verdict_text(s: &Summary) -> Seq<char> {
    if s.safe() {
        "SAFE TO FORMAT: YES"@
    } else if s.cancelled {
        "SAFE TO FORMAT: NO — this run was cancelled before it finished"@
    } else if s.failures@.len() > 0 {
        "SAFE TO FORMAT: NO — the files listed above did not copy successfully"@
    } else {
        "SAFE TO FORMAT: NO — nothing was ingested"@
    }
}

pub open spec fn head_spec(s: &Summary, version: Seq<char>, now: Seq<char>) -> Seq<char> {
    "PHASE ingest — "@ + now + " — v"@ + version + "\n"@ + "Card:        "@ + s.card_name@
        + "  (signature "@ + s.card_signature@ + ")\n"@ + "Destination: "@ + s.destination@
        + "\n"@
}

pub open spec fn cameras_spec(s: &Summary) -> Seq<char> {
    if s.cameras@.len() > 0 {
        "Cameras:     "@ + join(views_s(s.cameras@), ", "@) + "\n"@
    } else {
        Seq::empty()
    }
}

pub open spec fn ingested_spec(s: &Summary, size: Seq<char>) -> Seq<char> {
    "\n"@ + "Ingested:    "@ + plural_spec(s.ingested as nat, "file"@) + " — "@ + size
        + " — verified by BLAKE3 and by decoding every image\n"@
}

pub open spec fn skipped_spec(s: &Summary) -> Seq<char> {
    if s.skipped.jpeg_with_raw == 0 && s.skipped.other == 0 {
        Seq::empty()
    } else {
        "Skipped:     "@ + describe_text(s.skipped.jpeg_with_raw as nat, s.skipped.other as nat).skip(
            8,
        ) + "\n"@
    }
}

pub open spec fn failed_spec(s: &Summary) -> Seq<char> {
    "Failed:      "@ + dec(s.failures@.len()) + "\n"@ + failures_text(s.failures@)
}

pub open spec fn tail_spec(s: &Summary) -> Seq<char> {
    "\n"@ + verdict_text(s) + "\n\n"@
}

/// The whole block for one run; `size` is the run's byte count as the caller formats it.
pub open spec fn render_spec(s: &Summary, version: Seq<char>, now: Seq<char>, size: Seq<char>) -> Seq<
    char,
> {
    head_spec(s, version, now) + cameras_spec(s) + ingested_spec(s, size) + skipped_spec(s)
        + failed_spec(s) + tail_spec(s)
}

pub open spec fn views_s(v: Seq<String>) -> Seq<Seq<char>> {
    v.map_values(|x: String| x@)
}

fn push_head(out: &mut Vec<char>, summary: &Summary, version: &str, now: &str)
    ensures
        final(out)@ == old(out)@ + head_spec(summary, version@, now@),
{
    extend_str(out, "PHASE ingest — ");
    extend_str(out, now);
    extend_str(out, " — v");
    extend_str(out, version);
    extend_str(out, "\n");
    extend_str(out, "Card:        ");
    extend_str(out, summary.card_name.as_str());
    extend_str(out, "  (signature ");
    extend_str(out, summary.card_signature.as_str());
    extend_str(out, ")\n");
    extend_str(out, "Destination: ");
    extend_str(out, summary.destination.as_str());
    extend_str(out, "\n");
    assert(out@ =~= old(out)@ + head_spec(summary, version@, now@));
}

fn push_cameras(out: &mut Vec<char>, summary: &Summary)
    ensures
        final(out)@ == old(out)@ + cameras_spec(summary),
{
    if summary.cameras.len() > 0 {
        let mut names: Vec<Vec<char>> = Vec::new();
        let mut i: usize = 0;
        while i < summary.cameras.len()
            invariant
                i <= summary.cameras.len(),
                names.len() == i,
                forall|k: int| 0 <= k < i ==> #[trigger] names@[k]@ == summary.cameras@[k]@,
            decreases summary.cameras.len() - i,
        {
            names.push(chars_of(summary.cameras[i].as_str()));
            i += 1;
        }
        assert(views(names@) =~= views_s(summary.cameras@));
        let sep = chars_of(", ");
        let joined = join_vec(&names, &sep);
        extend_str(out, "Cameras:     ");
        extend(out, &joined);
        extend_str(out, "\n");
        assert(out@ =~= old(out)@ + cameras_spec(summary));
    } else {
        assert(out@ =~= old(out)@ + cameras_spec(summary));
    }
}

fn push_ingested(out: &mut Vec<char>, summary: &Summary, size: &str)
    ensures
        final(out)@ == old(out)@ + ingested_spec(summary, size@),
{
    extend_str(out, "\n");
    extend_str(out, "Ingested:    ");
    let p = plural(summary.ingested, "file");
    extend_str(out, p.as_str());
    extend_str(out, " — ");
    extend_str(out, size);
    extend_str(out, " — verified by BLAKE3 and by decoding every image\n");
    assert(out@ =~= old(out)@ + ingested_spec(summary, size@));
}

fn push_skipped(out: &mut Vec<char>, summary: &Summary)
    ensures
        final(out)@ == old(out)@ + skipped_spec(summary),
{
    match summary.skipped.describe() {
        Some(text) => {
            proof {
                reveal_strlit("skipped ");
            }
            let t = chars_of(text.as_str());
            let detail = crate::ingest::slice_from(&t, 8);
            extend_str(out, "Skipped:     ");
            extend(out, &detail);
            extend_str(out, "\n");
            assert(out@ =~= old(out)@ + skipped_spec(summary));
        },
        None => {
            assert(out@ =~= old(out)@ + skipped_spec(summary));
        },
    }
}

fn push_failed(out: &mut Vec<char>, summary: &Summary)
    ensures
        final(out)@ == old(out)@ + failed_spec(summary),
{
    extend_str(out, "Failed:      ");
    let d = dec_usize(summary.failures.len());
    extend(out, &d);
    extend_str(out, "\n");
    let ghost start = out@;
    let mut i: usize = 0;
    assert(summary.failures@.take(0) =~= Seq::<(String, String)>::empty());
    assert(out@ =~= start + failures_text(summary.failures@.take(0)));
    while i < summary.failures.len()
        invariant
            i <= summary.failures.len(),
            out@ == start + failures_text(summary.failures@.take(i as int)),
        decreases summary.failures.len() - i,
    {
        assert(summary.failures@.take(i + 1).drop_last() =~= summary.failures@.take(i as int));
        extend_str(out, "               ");
        extend_str(out, summary.failures[i].0.as_str());
        extend_str(out, " — ");
        extend_str(out, summary.failures[i].1.as_str());
        extend_str(out, "\n");
        i += 1;
        assert(out@ =~= start + failures_text(summary.failures@.take(i as int)));
    }
    assert(summary.failures@.take(summary.failures.len() as int) =~= summary.failures@);
    assert(out@ =~= old(out)@ + failed_spec(summary));
}

fn push_tail(out: &mut Vec<char>, summary: &Summary)
    ensures
        final(out)@ == old(out)@ + tail_spec(summary),
{
    extend_str(out, "\n");
    let verdict = if summary.safe_to_format() {
        "SAFE TO FORMAT: YES"
    } else if summary.cancelled {
        "SAFE TO FORMAT: NO — this run was cancelled before it finished"
    } else if summary.failures.len() > 0 {
        "SAFE TO FORMAT: NO — the files listed above did not copy successfully"
    } else {
        "SAFE TO FORMAT: NO — nothing was ingested"
    };
    extend_str(out, verdict);
    extend_str(out, "\n\n");
    assert(out@ =~= old(out)@ + tail_spec(summary));
}

/// Render one run's block. `now` and the formatted `size` are passed in so that this is
/// deterministic.
pub fn render(summary: &Summary, version: &str, now: &str, size: &str) -> (r: String)
    ensures
        r@ == render_spec(summary, version@, now@, size@),
{
    let mut out: Vec<char> = Vec::new();
    push_head(&mut out, summary, version, now);
    push_cameras(&mut out, summary);
    push_ingested(&mut out, summary, size);
    push_skipped(&mut out, summary);
    push_failed(&mut out, summary);
    push_tail(&mut out, summary);
    assert(out@ =~= render_spec(summary, version@, now@, size@));
    string_of(&out)
}


/// `n` in decimal, zero-padded to at least `width` digits: `{n:0width$}`.
pub open spec fn padded(n: nat, width: nat) -> Seq<char> {
    if dec(n).len() >= width {
        dec(n)
    } else {
        Seq::new((width - dec(n).len()) as nat, |i: int| '0') + dec(n)
    }
}

fn padded_exec(n: u16, width: usize) -> (r: Vec<char>)
    requires
        width <= 8,
    ensures
        r@ == padded(n as nat, width as nat),
{
    let d = crate::text::dec_u64(n as u64);
    if d.len() >= width {
        return d;
    }
    let mut out: Vec<char> = Vec::new();
    let zeros = width - d.len();
    let mut i: usize = 0;
    while i < zeros
        invariant
            i <= zeros,
            out@ == Seq::new(i as nat, |k: int| '0'),
        decreases zeros - i,
    {
        out.push('0');
        i += 1;
        assert(out@ =~= Seq::new(i as nat, |k: int| '0'));
    }
    extend(&mut out, &d);
    out
}

/// A wall-clock time as the log writes it: `YYYY-MM-DD HH:MM:SS`.
pub open spec fn timestamp_text(year: u16, month: u16, day: u16, hour: u16, minute: u16, second: u16) -> Seq<char> {
    padded(year as nat, 4) + "-"@ + padded(month as nat, 2) + "-"@ + padded(day as nat, 2) + " "@
        + padded(hour as nat, 2) + ":"@ + padded(minute as nat, 2) + ":"@ + padded(second as nat, 2)
}

pub fn format_timestamp(year: u16, month: u16, day: u16, hour: u16, minute: u16, second: u16) -> (r: String)
    ensures
        r@ == timestamp_text(year, month, day, hour, minute, second),
{
    let mut out = padded_exec(year, 4);
    extend_str(&mut out, "-");
    let m = padded_exec(month, 2);
    extend(&mut out, &m);
    extend_str(&mut out, "-");
    let d = padded_exec(day, 2);
    extend(&mut out, &d);
    extend_str(&mut out, " ");
    let h = padded_exec(hour, 2);
    extend(&mut out, &h);
    extend_str(&mut out, ":");
    let mi = padded_exec(minute, 2);
    extend(&mut out, &mi);
    extend_str(&mut out, ":");
    let se = padded_exec(second, 2);
    extend(&mut out, &se);
    string_of(&out)
}

} // verus!
