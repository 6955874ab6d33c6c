//! Built-in bar modules: `clock` and `exec`.

use std::fmt::Write;

use vstd::prelude::*;

use crate::text::{chars_of, string_of};
use crate::widget::{Event, Module, Span};

verus! {

broadcast use vstd::string::group_string_axioms;

/// `s` with every non-overlapping occurrence of `pat`, scanning left to right, replaced by `rep`
/// (what `str::replace` does for a non-empty pattern).
pub open spec fn replace_all(s: Seq<char>, pat: Seq<char>, rep: Seq<char>) -> Seq<char>
    decreases s.len(),
{
    if pat.len() == 0 || s.len() < pat.len() {
        s
    } else if s.take(pat.len() as int) == pat {
        rep + replace_all(s.skip(pat.len() as int), pat, rep)
    } else {
        seq![s[0]] + replace_all(s.skip(1), pat, rep)
    }
}

/// The text an exec module shows: the format with `{out}` replaced by the latest output line, or
/// the line itself when the format is empty.
pub open spec fn formatted(fmt: Seq<char>, value: Seq<char>) -> Seq<char> {
    if fmt.len() == 0 {
        value
    } else {
        replace_all(fmt, "{out}"@, value)
    }
}

/// `{out}` placeholder substitution; with no placeholder the format string is emitted as-is.
pub fn apply_format(fmt: &str, value: &str) -> (out: String)
    ensures
        out@ == formatted(fmt@, value@),
{
    let f = chars_of(fmt);
    let v = chars_of(value);
    if f.len() == 0 {
        return string_of(&v);
    }
    let pat = chars_of("{out}");
    proof {
        reveal_strlit("{out}");
    }
    assert(pat@.len() == 5);
    let n = f.len();
    let mut out: Vec<char> = Vec::new();
    let mut i: usize = 0;
    assert(f@.skip(0) =~= f@);
    assert(out@ + replace_all(f@.skip(0), pat@, v@) =~= replace_all(f@, pat@, v@));
    while i < n
        invariant
            n == f@.len(),
            f@ == fmt@,
            pat@ == "{out}"@,
            pat@.len() == 5,
            i <= n,
            out@ + replace_all(f@.skip(i as int), pat@, v@) == replace_all(f@, pat@, v@),
        decreases n - i,
    {
        let ghost rest = f@.skip(i as int);
        let mut hit = n - i >= 5;
        let mut k: usize = 0;
        while hit && k < 5
            invariant
                k <= 5,
                hit ==> i + 5 <= n,
                n == f@.len(),
                pat@.len() == 5,
                rest == f@.skip(i as int),
                hit ==> forall|j: int| 0 <= j < k ==> f@[i + j] == pat@[j],
                !hit ==> (i + 5 > n || rest.take(5) != pat@),
            decreases 5 - k,
        {
            if f[i + k] != pat[k] {
                hit = false;
                assert(rest.take(5)[k as int] == f@[i + k]);
            }
            k = k + 1;
        }
        if hit {
            assert(rest.take(5) =~= pat@);
            let mut j: usize = 0;
            let ghost before = out@;
            while j < v.len()
                invariant
                    j <= v@.len(),
                    out@ == before + v@.take(j as int),
                decreases v.len() - j,
            {
                out.push(v[j]);
                j = j + 1;
                assert(out@ =~= before + v@.take(j as int));
            }
            assert(v@.take(v@.len() as int) =~= v@);
            assert(rest.skip(5) =~= f@.skip(i + 5));
            i = i + 5;
            assert(out@ + replace_all(f@.skip(i as int), pat@, v@) =~= before + (v@ + replace_all(rest.skip(5), pat@, v@)));
        } else {
            let ghost before = out@;
            out.push(f[i]);
            assert(rest.skip(1) =~= f@.skip(i + 1));
            proof {
                if rest.len() < 5 {
                    assert(replace_all(rest, pat@, v@) == rest);
                    assert(rest =~= seq![rest[0]] + rest.skip(1));
                    assert(replace_all(rest.skip(1), pat@, v@) == rest.skip(1));
                }
            }
            i = i + 1;
            assert(out@ + replace_all(f@.skip(i as int), pat@, v@) =~= before + (seq![rest[0]] + replace_all(rest.skip(1), pat@, v@)));
        }
    }
    assert(f@.skip(n as int) =~= Seq::<char>::empty());
    assert(out@ =~= out@ + replace_all(f@.skip(n as int), pat@, v@));
    string_of(&out)
}

/// The local time formatted with a strftime pattern by `chrono` (`Local::now().format(..)`);
/// `None` when chrono reports the pattern as invalid. It reads the clock and the local time
/// zone, so nothing is promised of the text.
#[verifier::external_body]
fn local_time_text(format: &str) -> Option<String> {
    let mut out = String::new();
    match write!(out, "{}", chrono::Local::now().format(format)) {
        Ok(()) => Some(out),
        Err(_) => None,
    }
}

pub struct Clock {
    pub format: String,
    pub text: String,
}

impl Clock {
    /// A clock showing the current time right away, so there is content before the first tick.
    pub fn new(format: String) -> (c: Clock)
        ensures
            c.format == format,
    {
        let reading = local_time_text(format.as_str());
        Clock::showing(format, reading)
    }

    /// A clock showing a reading of the time (nothing when there is none).
    pub fn showing(format: String, reading: Option<String>) -> (c: Clock)
        ensures
            c.format == format,
            c.text@ == match reading {
                Some(t) => t@,
                None => Seq::<char>::empty(),
            },
    {
        let text = match reading {
            Some(t) => t,
            None => String::new(),
        };
        Clock { format, text }
    }

    /// Takes a new reading of the time; reports whether the shown text changed. No reading (a
    /// pattern chrono rejects) leaves the text as it was.
    pub fn tick(&mut self, reading: Option<String>) -> (changed: bool)
        ensures
            final(self).format == old(self).format,
            match reading {
                Some(t) => final(self).text@ == t@ && changed == (t@ != old(self).text@),
                None => final(self).text == old(self).text && !changed,
            },
    {
        match reading {
            Some(now) => {
                if now == self.text {
                    return false;
                }
                self.text = now;
                true
            },
            None => false,
        }
    }
}

impl Module for Clock {
    /// On a timer wake-up, re-reads the time; reports whether the shown text changed.
    fn update(&mut self, ev: &Event) -> (changed: bool)
        ensures
            final(self).format == old(self).format,
            changed == (final(self).text@ != old(self).text@),
            !(ev is Wake) ==> final(self).text == old(self).text,
    {
        match ev {
            Event::Wake => {},
            _ => return false,
        }
        let reading = local_time_text(self.format.as_str());
        self.tick(reading)
    }

    fn spans(&self) -> (s: Vec<Span>)
        ensures
            s@.len() == 1,
            s@[0].text@ == self.text@,
    {
        let mut v = Vec::new();
        v.push(Span::text(self.text.as_str()));
        v
    }
}

pub struct Exec {
    pub id: usize,
    pub format: String,
    pub latest: String,
}

/// What an exec module holds after an event: the line when it is addressed to this module.
pub open spec fn exec_latest(e: Exec, ev: Event) -> Seq<char> {
    match ev {
        Event::Line { id, text } => if id == e.id { text@ } else { e.latest@ },
        Event::Wake => e.latest@,
    }
}

impl Exec {
    /// An exec module that has not printed anything yet. Its child process is started by the
    /// caller, which feeds each output line back as an `Event::Line` with this id.
    pub fn new(id: usize, format: String) -> (e: Exec)
        ensures
            e.id == id,
            e.format == format,
            e.latest@ == Seq::<char>::empty(),
    {
        Exec { id, format, latest: String::new() }
    }

    pub fn rendered(&self) -> (s: String)
        ensures
            s@ == formatted(self.format@, self.latest@),
    {
        apply_format(self.format.as_str(), self.latest.as_str())
    }
}

impl Module for Exec {
    /// Takes the line addressed to this module; reports whether the shown value changed.
    fn update(&mut self, ev: &Event) -> (changed: bool)
        ensures
            final(self).id == old(self).id,
            final(self).format == old(self).format,
            final(self).latest@ == exec_latest(*old(self), *ev),
            changed == (final(self).latest@ != old(self).latest@),
    {
        match ev {
            Event::Line { id, text } => {
                if *id != self.id || *text == self.latest {
                    return false;
                }
                self.latest = text.clone();
                true
            },
            Event::Wake => false,
        }
    }

    fn spans(&self) -> (s: Vec<Span>)
        ensures
            s@.len() == 1,
            s@[0].text@ == formatted(self.format@, self.latest@),
    {
        let r = self.rendered();
        let mut v = Vec::new();
        v.push(Span::text(r.as_str()));
        v
    }
}

} // verus!
