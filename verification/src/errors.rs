//! Collected diagnostics and their source-context rendering.
use vstd::prelude::*;
use crate::num::dec_str;
use crate::text::{chars_to_string, str_to_chars, subrange_chars};

verus! {

/// How severe a diagnostic is.
#[derive(Clone, Copy, Debug, PartialEq, Eq, Structural)]
pub enum Severity {
    Critical,
    Error,
    Warning,
    Info,
}

pub open spec fn severity_text(s: Severity) -> Seq<char> {
    match s {
        Severity::Critical => "Critical"@,
        Severity::Error => "Error"@,
        Severity::Warning => "Warning"@,
        Severity::Info => "Info"@,
    }
}

impl Severity {
    /// The severity's name as shown in a diagnostic header.
    pub fn as_text(&self) -> (r: &'static str)
        ensures
            r@ == severity_text(*self),
    {
        match self {
            Severity::Critical => "Critical",
            Severity::Error => "Error",
            Severity::Warning => "Warning",
            Severity::Info => "Info",
        }
    }
}

/// Model of one collected diagnostic.
pub struct ErrM {
    pub msg: Seq<char>,
    pub severity: Severity,
    pub start: nat,
    pub length: nat,
}

/// One collected diagnostic: message, severity and source span.
pub struct Error {
    pub message: &'static str,
    pub severity: Severity,
    pub start: usize,
    pub length: usize,
}

impl View for Error {
    type V = ErrM;

    open spec fn view(&self) -> ErrM {
        ErrM {
            msg: self.message@,
            severity: self.severity,
            start: self.start as nat,
            length: self.length as nat,
        }
    }
}

/// Model of the diagnostics collector.
pub struct ErrsM {
    pub source: Seq<char>,
    pub list: Seq<ErrM>,
    pub flag: bool,
}

/// The ordered diagnostics of one run, with the panic-mode flag that
/// suppresses further pushes until it is cleared.
pub struct Errors {
    source: Vec<char>,
    error_list: Vec<Error>,
    flag: bool,
}

impl View for Errors {
    type V = ErrsM;

    closed spec fn view(&self) -> ErrsM {
        ErrsM {
            source: self.source@,
            list: self.error_list@.map_values(|e: Error| e@),
            flag: self.flag,
        }
    }
}

impl Errors {
    /// Sources this library handles leave room for the few characters a
    /// diagnostic header adds to an offset.
    pub open spec fn inv(&self) -> bool {
        self@.source.len() + 64 <= usize::MAX
    }

    pub fn new(source: &str) -> (r: Errors)
        ensures
            r.inv(),
            r@.source == source@,
            r@.list == Seq::<ErrM>::empty(),
            r@.flag == false,
    {
        let r = Errors { source: str_to_chars(source), error_list: Vec::new(), flag: false };
        proof {
            assert(r@.list =~= Seq::<ErrM>::empty());
        }
        r
    }

    /// Record a diagnostic unless the panic-mode flag is set; `flag`
    /// says whether this diagnostic raises the flag.
    pub fn push(&mut self, message: &'static str, severity: Severity, start: usize, length: usize, flag: bool)
        ensures
            final(self).inv() == old(self).inv(),
            final(self)@.source == old(self)@.source,
            old(self)@.flag ==> final(self)@ == old(self)@,
            !old(self)@.flag ==> final(self)@.list == old(self)@.list.push(
                (ErrM {
                    msg: message@,
                    severity: severity,
                    start: start as nat,
                    length: length as nat,
                }),
            ) && final(self)@.flag == flag,
    {
        if !self.flag {
            self.flag = flag;
            self.error_list.push(Error { message, severity, start, length });
            proof {
                assert(self@.list =~= old(self)@.list.push(
                    ErrM {
                        msg: message@,
                        severity: severity,
                        start: start as nat,
                        length: length as nat,
                    },
                ));
            }
        } else {
            proof {
                assert(self@ == old(self)@);
            }
        }
    }

    pub fn get_flag(&self) -> (r: bool)
        ensures
            r == self@.flag,
    {
        self.flag
    }

    pub fn set_flag(&mut self, value: bool)
        ensures
            final(self).inv() == old(self).inv(),
            final(self)@ == (ErrsM { flag: value, ..old(self)@ }),
    {
        self.flag = value;
    }

    /// Move every collected diagnostic to the back of `target`'s list.
    pub fn coalesce(&mut self, target: &mut Errors)
        ensures
            final(self).inv() == old(self).inv(),
            final(target).inv() == old(target).inv(),
            final(self)@ == (ErrsM { list: Seq::<ErrM>::empty(), ..old(self)@ }),
            final(target)@ == (ErrsM {
                list: old(target)@.list + old(self)@.list,
                ..old(target)@
            }),
    {
        target.error_list.append(&mut self.error_list);
        proof {
            assert(self@.list =~= Seq::<ErrM>::empty());
            assert(target@.list =~= old(target)@.list + old(self)@.list);
        }
    }

    /// Render every collected diagnostic, three lines each, in order.
    pub fn print_errors(&self) -> (r: Vec<String>)
        requires
            self.inv(),
        ensures
            r@.map_values(|s: String| s@) == all_diag_lines(self@.source, self@.list),
    {
        let mut out: Vec<String> = Vec::new();
        let mut i: usize = 0;
        proof {
            assert(self@.list.take(0) =~= Seq::<ErrM>::empty());
            assert(out@.map_values(|s: String| s@) =~= all_diag_lines(
                self@.source,
                self@.list.take(0),
            ));
        }
        while i < self.error_list.len()
            invariant
                self.inv(),
                i <= self.error_list.len(),
                out@.map_values(|s: String| s@) == all_diag_lines(
                    self@.source,
                    self@.list.take(i as int),
                ),
            decreases self.error_list.len() - i,
        {
            let e = &self.error_list[i];
            let mut lines = format_error(
                &self.source,
                e.severity.as_text(),
                e.message,
                e.start,
                e.length,
            );
            out.append(&mut lines);
            proof {
                assert(self@.list.take(i as int + 1).drop_last() =~= self@.list.take(i as int));
                assert(self@.list.take(i as int + 1).last() == self@.list[i as int]);
                assert(out@.map_values(|s: String| s@) =~= all_diag_lines(
                    self@.source,
                    self@.list.take(i as int + 1),
                ));
            }
            i += 1;
        }
        proof {
            assert(self@.list.take(self@.list.len() as int) =~= self@.list);
        }
        out
    }
}

// ---------------------------------------------------------------------------
// Rendering one diagnostic
// ---------------------------------------------------------------------------

pub open spec fn repeat_ch(c: char, n: int) -> Seq<char>
    decreases n,
{
    if n <= 0 {
        Seq::<char>::empty()
    } else {
        repeat_ch(c, n - 1).push(c)
    }
}

/// Pad with spaces on the left so the text ends at column `w`, if room.
pub open spec fn right_align(s: Seq<char>, w: int) -> Seq<char> {
    if s.len() >= w {
        s
    } else {
        repeat_ch(' ', w - s.len()) + s
    }
}

/// Newlines among the first `n` characters.
pub open spec fn nl_count(s: Seq<char>, n: int) -> int
    decreases n,
{
    if n <= 0 {
        0
    } else {
        nl_count(s, n - 1) + if s[n - 1] == '\n' {
            1int
        } else {
            0int
        }
    }
}

/// Offset where the line containing offset `n` begins.
pub open spec fn line_begin(s: Seq<char>, n: int) -> int
    decreases n,
{
    if n <= 0 {
        0
    } else if s[n - 1] == '\n' {
        n
    } else {
        line_begin(s, n - 1)
    }
}

/// Offset where the line containing offset `n` ends (exclusive).
pub open spec fn line_end(s: Seq<char>, n: int) -> int
    decreases s.len() - n,
{
    if n >= s.len() {
        s.len() as int
    } else if s[n] == '\n' {
        n
    } else {
        line_end(s, n + 1)
    }
}

/// The three lines a diagnostic renders to: header, source line, marker.
pub open spec fn diag_lines(code: Seq<char>, sev: Seq<char>, msg: Seq<char>, start: int, len: int) -> Seq<
    Seq<char>,
> {
    let s0 = if start > code.len() {
        code.len() as int
    } else {
        start
    };
    let line = 1 + nl_count(code, s0);
    let ls = line_begin(code, s0);
    let le = line_end(code, s0);
    let prefix = "line "@ + dec_str(line as nat) + ": "@;
    let w = s0 + prefix.len();
    let l1 = sev + ": "@ + msg;
    let l2 = prefix + code.subrange(ls, le);
    let l3 = if len > 0 {
        right_align("here --"@, w) + repeat_ch('^', len)
    } else if s0 < (ls + le) / 2 {
        repeat_ch(' ', w) + "\\__ here"@
    } else {
        right_align("here __/"@, w)
    };
    seq![l1, l2, l3]
}

/// The rendering of a whole list of diagnostics.
pub open spec fn all_diag_lines(code: Seq<char>, list: Seq<ErrM>) -> Seq<Seq<char>>
    decreases list.len(),
{
    if list.len() == 0 {
        Seq::<Seq<char>>::empty()
    } else {
        all_diag_lines(code, list.drop_last()) + diag_lines(
            code,
            severity_text(list.last().severity),
            list.last().msg,
            list.last().start as int,
            list.last().length as int,
        )
    }
}

fn push_repeat(out: &mut Vec<char>, c: char, n: usize)
    ensures
        final(out)@ == old(out)@ + repeat_ch(c, n as int),
{
    let mut i: usize = 0;
    proof {
        assert(old(out)@ + repeat_ch(c, 0) =~= old(out)@);
    }
    while i < n
        invariant
            i <= n,
            out@ == old(out)@ + repeat_ch(c, i as int),
        decreases n - i,
    {
        out.push(c);
        i += 1;
    }
}

fn push_str_chars(out: &mut Vec<char>, s: &str)
    ensures
        final(out)@ == old(out)@ + s@,
{
    let mut v = str_to_chars(s);
    out.append(&mut v);
}

/// Append `s` right-aligned to end at column `w`.
fn push_right_align(out: &mut Vec<char>, s: &str, w: usize)
    requires
        w + 8 <= usize::MAX,
    ensures
        final(out)@ == old(out)@ + right_align(s@, w as int),
{
    let v = str_to_chars(s);
    if v.len() >= w {
        let mut v = v;
        out.append(&mut v);
    } else {
        push_repeat(out, ' ', w - v.len());
        let mut v = v;
        out.append(&mut v);
    }
}

/// Render one diagnostic against its source: a header line, the source
/// line the span starts in, and a marker line pointing at the span.
pub fn format_error(code: &Vec<char>, sev: &str, msg: &str, start: usize, len: usize) -> (r: Vec<
    String,
>)
    requires
        code@.len() + 64 <= usize::MAX,
    ensures
        r@.map_values(|s: String| s@) == diag_lines(code@, sev@, msg@, start as int, len as int),
{
    let s0 = if start > code.len() {
        code.len()
    } else {
        start
    };
    // line number and bounds of the line containing s0
    let mut line: usize = 1;
    let mut ls: usize = 0;
    let mut i: usize = 0;
    while i < s0
        invariant
            code@.len() + 64 <= usize::MAX,
            i <= s0 <= code@.len(),
            line == 1 + nl_count(code@, i as int),
            ls == line_begin(code@, i as int),
            ls <= i,
            line <= 1 + i,
        decreases s0 - i,
    {
        if code[i] == '\n' {
            line = line + 1;
            ls = i + 1;
        }
        i += 1;
    }
    let mut le: usize = s0;
    while le < code.len() && code[le] != '\n'
        invariant
            code@.len() + 64 <= usize::MAX,
            s0 <= le <= code@.len(),
            line_end(code@, s0 as int) == line_end(code@, le as int),
        decreases code@.len() - le,
    {
        le += 1;
    }
    proof {
        assert(line_end(code@, le as int) == le);
    }
    // the three lines
    let mut l1: Vec<char> = Vec::new();
    push_str_chars(&mut l1, sev);
    push_str_chars(&mut l1, ": ");
    push_str_chars(&mut l1, msg);

    let mut l2: Vec<char> = Vec::new();
    push_str_chars(&mut l2, "line ");
    crate::num::push_dec(&mut l2, line as u128);
    push_str_chars(&mut l2, ": ");
    let plen = l2.len();
    proof {
        reveal_strlit("line ");
        reveal_strlit(": ");
        crate::num::lemma_pow10_values();
        crate::num::lemma_dec_str_len(line as nat, 20);
        assert(plen <= 27);
    }
    let mut body = subrange_chars(code, ls, le);
    l2.append(&mut body);

    let w = s0 + plen;
    let mut l3: Vec<char> = Vec::new();
    if len > 0 {
        push_right_align(&mut l3, "here --", w);
        push_repeat(&mut l3, '^', len);
    } else if s0 < ls + (le - ls) / 2 {
        proof {
            vstd::arithmetic::div_mod::lemma_hoist_over_denominator(le - ls, ls as int, 2);
            assert(ls + (le - ls) / 2 == (ls + le) / 2);
        }
        push_repeat(&mut l3, ' ', w);
        push_str_chars(&mut l3, "\\__ here");
    } else {
        proof {
            vstd::arithmetic::div_mod::lemma_hoist_over_denominator(le - ls, ls as int, 2);
            assert(ls + (le - ls) / 2 == (ls + le) / 2);
        }
        push_right_align(&mut l3, "here __/", w);
    }

    let mut r: Vec<String> = Vec::new();
    r.push(chars_to_string(l1));
    r.push(chars_to_string(l2));
    r.push(chars_to_string(l3));
    proof {
        assert(r@.map_values(|s: String| s@) =~= diag_lines(
            code@,
            sev@,
            msg@,
            start as int,
            len as int,
        ));
    }
    r
}

} // verus!
