use vstd::prelude::*;

use super::read::lex::{lemma_off_monotonic, off, utf8_len, utf8_width};
use super::span::Span;
use super::text::{chars_of, decimal, lemma_decimal_digits, push_char, push_decimal};
use vstd::string::StringExecFns;

verus! {

broadcast use vstd::seq_lib::group_seq_properties;

/// An error found while compiling: where it is and why.
#[derive(Debug, Clone)]
pub struct CompilationError {
    pub span: Span,
    pub reason: String,
}

impl View for CompilationError {
    type V = (Span, Seq<char>);

    open spec fn view(&self) -> (Span, Seq<char>) {
        (self.span, self.reason@)
    }
}

impl CompilationError {
    /// The error as one line of text: its span, a colon and the reason.
    pub fn display(&self) -> (r: String)
        ensures
            r@ == self.span.spec_display() + ": "@ + self.reason@,
    {
        let mut out = self.span.display();
        out.append(": ");
        out.append(self.reason.as_str());
        out
    }
}

/// Number of bytes of the UTF-8 encoding of a text.
pub open spec fn bytes(t: Seq<char>) -> nat {
    off(t, t.len() as int)
}

/// Index of the first line feed of `s` at or after `i`, or the length of `s`.
pub open spec fn next_line_feed(s: Seq<char>, i: int) -> int
    decreases s.len() - i,
{
    if i < 0 || i >= s.len() {
        s.len() as int
    } else if s[i] == '\n' {
        i
    } else {
        next_line_feed(s, i + 1)
    }
}

/// The first line feed at or after `i` lies between `i` and the end, and none
/// comes before it.
pub proof fn lemma_next_line_feed(s: Seq<char>, i: int)
    requires
        0 <= i <= s.len(),
    ensures
        i <= next_line_feed(s, i) <= s.len(),
        next_line_feed(s, i) < s.len() ==> s[next_line_feed(s, i)] == '\n',
        forall|m: int| i <= m < next_line_feed(s, i) ==> s[m] != '\n',
    decreases s.len() - i,
{
    if i < s.len() && s[i] != '\n' {
        lemma_next_line_feed(s, i + 1);
    }
}

/// The lines of `s` from index `i` on: cut at each line feed, a carriage return
/// just before a line feed dropped, and no empty line after a final line feed.
pub open spec fn lines_from(s: Seq<char>, i: int) -> Seq<Seq<char>>
    decreases s.len() + 1 - i,
{
    if i < 0 || i >= s.len() {
        Seq::empty()
    } else {
        proof {
            lemma_next_line_feed(s, i);
        }
        let j = next_line_feed(s, i);
        let piece = s.subrange(i, j);
        let line = if j < s.len() && piece.len() > 0 && piece.last() == '\r' {
            piece.drop_last()
        } else {
            piece
        };
        seq![line] + lines_from(s, j + 1)
    }
}

/// The lines of a text.
pub open spec fn lines(s: Seq<char>) -> Seq<Seq<char>> {
    lines_from(s, 0)
}

/// Where the `k`-th line is taken to start: each earlier line counted with one
/// byte for its line break.
pub open spec fn line_start(ls: Seq<Seq<char>>, k: int) -> nat
    decreases k,
{
    if k <= 0 || ls.len() == 0 {
        0
    } else {
        bytes(ls[0]) + 1 + line_start(ls.skip(1), k - 1)
    }
}

/// The first line, from `k` on, that ends after byte `lo`.
pub open spec fn first_line_reaching(ls: Seq<Seq<char>>, k: int, lo: nat) -> int
    decreases ls.len() - k,
{
    if k < 0 || k >= ls.len() || line_start(ls, k) + bytes(ls[k]) > lo {
        k
    } else {
        first_line_reaching(ls, k + 1, lo)
    }
}

/// Whether the byte at `at` lies inside `span`.
pub open spec fn marked(at: nat, span: Span) -> bool {
    span.lo <= at < span.hi
}

/// Under each character of `line`, whose first byte is at `offset`: `^` where
/// the character starts inside `span`, a space elsewhere.
pub open spec fn underline(line: Seq<char>, offset: nat, span: Span) -> Seq<char> {
    Seq::new(line.len(), |c: int| if marked(offset + off(line, c), span) { '^' } else { ' ' })
}

/// `n` spaces.
pub open spec fn spaces(n: nat) -> Seq<char>
    decreases n,
{
    if n == 0 {
        Seq::empty()
    } else {
        spaces((n - 1) as nat).push(' ')
    }
}

/// The decimal rendering of `n`, padded on the left with spaces to 3 characters.
pub open spec fn padded(n: nat) -> Seq<char> {
    let d = decimal(n);
    if d.len() >= 3 {
        d
    } else {
        spaces((3 - d.len()) as nat) + d
    }
}

/// The numbered lines from `k` on, each with its underline, up to the first line
/// that reaches the end of `span`.
pub open spec fn excerpt(ls: Seq<Seq<char>>, k: int, span: Span) -> Seq<char>
    decreases ls.len() - k,
{
    if k < 0 || k >= ls.len() {
        Seq::empty()
    } else {
        let text = padded((k + 1) as nat) + " | "@ + ls[k] + "\n    | "@ + underline(ls[k], line_start(ls, k), span)
            + "\n"@;
        if line_start(ls, k + 1) >= span.hi {
            text
        } else {
            text + excerpt(ls, k + 1, span)
        }
    }
}

/// The report of an error against the source text it was found in: the reason,
/// then, when the error starts within a line, its line and column (the column
/// counted in bytes from 1) and the lines it covers, underlined.
pub open spec fn report(error: (Span, Seq<char>), source: Seq<char>) -> Seq<char> {
    let (span, reason) = error;
    let ls = lines(source);
    let k = first_line_reaching(ls, 0, span.lo as nat);
    let head = "Error: "@ + reason + "\n"@;
    if k < ls.len() {
        head + " --> "@ + decimal((k + 1) as nat) + ":"@ + decimal((span.lo + 1 - line_start(ls, k)) as nat)
            + ":\n"@ + "    |\n"@ + excerpt(ls, k, span)
    } else {
        head
    }
}

/// An error together with the source text it refers to, ready to be shown.
pub struct CompilationErrorPrettyPrinter<'a, 'b> {
    error: &'a CompilationError,
    source: &'b str,
}

impl<'a, 'b> View for CompilationErrorPrettyPrinter<'a, 'b> {
    type V = ((Span, Seq<char>), Seq<char>);

    closed spec fn view(&self) -> ((Span, Seq<char>), Seq<char>) {
        (self.error@, self.source@)
    }
}

impl CompilationError {
    /// Pairs the error with the source text it was found in.
    pub fn pprint_with_source<'a, 'b>(&'a self, source: &'b str) -> (r: CompilationErrorPrettyPrinter<'a, 'b>)
        ensures
            r@ == (self@, source@),
    {
        CompilationErrorPrettyPrinter { error: self, source }
    }
}

/// The byte offsets within a slice of a text are those of the text, shifted.
proof fn lemma_off_subrange(s: Seq<char>, a: int, b: int, i: int)
    requires
        0 <= a <= b <= s.len(),
        0 <= i <= b - a,
    ensures
        off(s.subrange(a, b), i) == off(s, a + i) - off(s, a),
    decreases i,
{
    if i > 0 {
        lemma_off_subrange(s, a, b, i - 1);
    }
    lemma_off_monotonic(s, a, a + i);
}

/// A line takes no more bytes than the slice of the text it was cut from.
proof fn lemma_line_bytes(s: Seq<char>, i: int)
    requires
        0 <= i < s.len(),
    ensures
        bytes(lines_from(s, i)[0]) <= off(s, next_line_feed(s, i)) - off(s, i),
{
    lemma_next_line_feed(s, i);
    let j = next_line_feed(s, i);
    let piece = s.subrange(i, j);
    lemma_off_subrange(s, i, j, j - i);
    if piece.len() > 0 {
        lemma_off_subrange(s, i, j, j - i - 1);
        assert(piece.drop_last() =~= s.subrange(i, j - 1));
        lemma_off_subrange(s, i, j - 1, j - i - 1);
        lemma_off_monotonic(s, j - 1, j);
    }
}

/// Counting each line with one byte for its break never goes past the end of
/// the text by more than one byte.
proof fn lemma_line_start_bound(s: Seq<char>, i: int, k: int)
    requires
        0 <= i <= s.len(),
    ensures
        line_start(lines_from(s, i), k) <= off(s, s.len() as int) - off(s, i) + 1,
    decreases s.len() - i,
{
    lemma_off_monotonic(s, i, s.len() as int);
    if i < s.len() && k > 0 {
        lemma_next_line_feed(s, i);
        let j = next_line_feed(s, i);
        let ls = lines_from(s, i);
        lemma_line_bytes(s, i);
        lemma_off_monotonic(s, j, s.len() as int);
        if j < s.len() {
            assert(ls.skip(1) =~= lines_from(s, j + 1));
            lemma_line_start_bound(s, j + 1, k - 1);
            assert(off(s, j + 1) == off(s, j) + 1);
        } else {
            assert(ls.skip(1) =~= Seq::<Seq<char>>::empty());
        }
    }
}

/// The start of the next line is the start of this one, its bytes and its break.
proof fn lemma_line_start_step(ls: Seq<Seq<char>>, k: int)
    requires
        0 <= k < ls.len(),
    ensures
        line_start(ls, k + 1) == line_start(ls, k) + bytes(ls[k]) + 1,
    decreases k,
{
    if k > 0 {
        assert(ls.skip(1)[k - 1] == ls[k]);
        lemma_line_start_step(ls.skip(1), k - 1);
    } else {
        assert(line_start(ls.skip(1), 0) == 0);
    }
}

/// The line that `first_line_reaching` finds is past the end or ends after `lo`.
proof fn lemma_first_line_reaching(ls: Seq<Seq<char>>, k: int, lo: nat)
    requires
        0 <= k,
    ensures
        first_line_reaching(ls, k, lo) >= ls.len() || line_start(ls, first_line_reaching(ls, k, lo)) + bytes(
            ls[first_line_reaching(ls, k, lo)],
        ) > lo,
    decreases ls.len() - k,
{
    if k < ls.len() && line_start(ls, k) + bytes(ls[k]) <= lo {
        lemma_first_line_reaching(ls, k + 1, lo);
    }
}

/// Line starts grow with the line index.
proof fn lemma_line_start_monotonic(ls: Seq<Seq<char>>, k: int, m: int)
    requires
        0 <= k <= m <= ls.len(),
    ensures
        line_start(ls, k) <= line_start(ls, m),
    decreases m - k,
{
    if k < m {
        lemma_line_start_step(ls, k);
        lemma_line_start_monotonic(ls, k + 1, m);
    }
}

/// The views of a sequence of character vectors.
pub open spec fn views(v: Seq<Vec<char>>) -> Seq<Seq<char>> {
    v.map_values(|x: Vec<char>| x@)
}

/// The lines of a text, each as its characters.
fn split_lines(source: &str) -> (r: Vec<Vec<char>>)
    ensures
        views(r@) == lines(source@),
{
    let cs = chars_of(source);
    let n = cs.len();
    let mut r: Vec<Vec<char>> = Vec::new();
    let mut i: usize = 0;
    assert(views(r@) =~= Seq::<Seq<char>>::empty());
    while i < n
        invariant
            cs@ == source@,
            n == cs@.len(),
            i <= n,
            views(r@) + lines_from(cs@, i as int) == lines(cs@),
        decreases n - i,
    {
        let mut j = i;
        while j < n && cs[j] != '\n'
            invariant
                i <= j <= n,
                n == cs@.len(),
                forall|m: int| i <= m < j ==> cs@[m] != '\n',
            decreases n - j,
        {
            j = j + 1;
        }
        proof {
            lemma_next_line_feed(cs@, i as int);
            let f = next_line_feed(cs@, i as int);
            if f < j {
                assert(cs@[f] != '\n');
            }
            if j < f {
                assert(cs@[j as int] != '\n');
            }
        }
        let mut piece: Vec<char> = Vec::new();
        let mut m = i;
        while m < j
            invariant
                i <= m <= j <= n,
                n == cs@.len(),
                piece@ == cs@.subrange(i as int, m as int),
            decreases j - m,
        {
            piece.push(cs[m]);
            assert(cs@.subrange(i as int, m + 1) =~= cs@.subrange(i as int, m as int).push(cs@[m as int]));
            m = m + 1;
        }
        if j < n && piece.len() > 0 && piece[piece.len() - 1] == '\r' {
            piece.pop();
        }
        let ghost before = r@;
        assert(lines_from(cs@, i as int)[0] == piece@);
        r.push(piece);
        assert(views(r@) =~= views(before).push(piece@));
        assert(lines_from(cs@, i as int) =~= seq![piece@] + lines_from(cs@, j + 1));
        if j == n {
            i = n;
        } else {
            i = j + 1;
        }
    }
    assert(views(r@) + lines_from(cs@, i as int) =~= views(r@));
    r
}

/// Number of bytes of the UTF-8 encoding of a line.
fn line_bytes(line: &Vec<char>) -> (r: usize)
    requires
        bytes(line@) <= usize::MAX,
    ensures
        r == bytes(line@),
{
    let mut k: usize = 0;
    let mut n: usize = 0;
    while k < line.len()
        invariant
            k <= line@.len(),
            n == off(line@, k as int),
            bytes(line@) <= usize::MAX,
        decreases line@.len() - k,
    {
        proof {
            lemma_off_monotonic(line@, k + 1, line@.len() as int);
        }
        n = n + utf8_width(line[k]);
        k = k + 1;
    }
    n
}

/// Appends the characters of `cs` to `out`.
fn push_all(out: &mut String, cs: &Vec<char>)
    ensures
        final(out)@ == old(out)@ + cs@,
{
    let mut k: usize = 0;
    while k < cs.len()
        invariant
            k <= cs@.len(),
            out@ == old(out)@ + cs@.take(k as int),
        decreases cs@.len() - k,
    {
        push_char(out, cs[k]);
        assert(cs@.take(k + 1) =~= cs@.take(k as int).push(cs@[k as int]));
        k = k + 1;
    }
    assert(cs@.take(k as int) =~= cs@);
}

/// Appends the line number `n`, padded on the left to 3 characters.
fn push_padded(out: &mut String, n: u64)
    ensures
        final(out)@ == old(out)@ + padded(n as nat),
{
    proof {
        lemma_decimal_digits(n as nat);
        if n >= 10 {
            lemma_decimal_digits((n / 10) as nat);
        }
    }
    if n < 10 {
        push_char(out, ' ');
        push_char(out, ' ');
        assert(spaces(2) =~= seq![' ', ' ']) by {
            reveal_with_fuel(spaces, 3);
        }
    } else if n < 100 {
        push_char(out, ' ');
        assert(spaces(1) =~= seq![' ']) by {
            reveal_with_fuel(spaces, 2);
        }
    }
    let ghost mid = out@;
    push_decimal(out, n);
    assert(final(out)@ =~= old(out)@ + padded(n as nat));
}

impl<'a, 'b> CompilationErrorPrettyPrinter<'a, 'b> {
    /// The report of the error against its source text.
    pub fn render(&self) -> (r: String)
        requires
            bytes(self@.1) < usize::MAX,
        ensures
            r@ == report(self@.0, self@.1),
    {
        let ghost s = self.source@;
        let ghost span = self.error.span;
        let ls = split_lines(self.source);
        let ghost lv = lines(s);
        assert forall|k: int| 0 <= k < lv.len() implies (#[trigger] ls@[k])@ == lv[k] by {
            assert(views(ls@)[k] == ls@[k]@);
        }
        proof {
            lemma_line_start_bound(s, 0, lv.len() as int);
        }
        let lo = self.error.span.lo;
        let hi = self.error.span.hi;
        let mut out = String::new();
        out.append("Error: ");
        out.append(self.error.reason.as_str());
        out.append("\n");
        let ghost head = out@;
        let mut k: usize = 0;
        let mut offset: usize = 0;
        loop
            invariant
                ls@.len() == lv.len(),
                forall|m: int| 0 <= m < lv.len() ==> (#[trigger] ls@[m])@ == lv[m],
                line_start(lv, lv.len() as int) <= bytes(s) + 1,
                bytes(s) < usize::MAX,
                k <= lv.len(),
                offset == line_start(lv, k as int),
                offset <= lo + 1,
                first_line_reaching(lv, k as int, lo as nat) == first_line_reaching(lv, 0, lo as nat),
            ensures
                k == first_line_reaching(lv, 0, lo as nat),
            decreases lv.len() - k,
        {
            if k >= ls.len() {
                break;
            }
            proof {
                lemma_line_start_step(lv, k as int);
                lemma_line_start_monotonic(lv, k + 1, lv.len() as int);
            }
            let w = line_bytes(&ls[k]);
            if offset + w > lo {
                break;
            }
            offset = offset + w + 1;
            k = k + 1;
        }
        let ghost target = report(self@.0, s);
        if k < ls.len() {
            proof {
                lemma_first_line_reaching(lv, 0, lo as nat);
                lemma_line_start_step(lv, k as int);
                lemma_line_start_monotonic(lv, k + 1, lv.len() as int);
            }
            out.append(" --> ");
            push_decimal(&mut out, (k + 1) as u64);
            out.append(":");
            push_decimal(&mut out, (lo + 1 - offset) as u64);
            out.append(":\n");
            out.append("    |\n");
        }
        proof {
            if k < lv.len() {
                assert(out@ + excerpt(lv, k as int, span) =~= target);
            } else {
                assert(out@ + excerpt(lv, k as int, span) =~= target);
            }
        }
        loop
            invariant_except_break
                out@ + excerpt(lv, k as int, span) == target,
            invariant
                ls@.len() == lv.len(),
                forall|m: int| 0 <= m < lv.len() ==> (#[trigger] ls@[m])@ == lv[m],
                line_start(lv, lv.len() as int) <= bytes(s) + 1,
                bytes(s) < usize::MAX,
                lo == span.lo,
                hi == span.hi,
                k <= lv.len(),
                offset == line_start(lv, k as int),
            ensures
                out@ == target,
            decreases lv.len() - k,
        {
            if k >= ls.len() {
                assert(out@ =~= target);
                break;
            }
            proof {
                lemma_line_start_step(lv, k as int);
                lemma_line_start_monotonic(lv, k + 1, lv.len() as int);
            }
            let line = &ls[k];
            let ghost before = out@;
            push_padded(&mut out, (k + 1) as u64);
            out.append(" | ");
            push_all(&mut out, line);
            out.append("\n    | ");
            let ghost mid = out@;
            let mut c: usize = 0;
            let mut pos: usize = offset;
            while c < line.len()
                invariant
                    c <= line@.len(),
                    line@ == lv[k as int],
                    pos == offset + off(line@, c as int),
                    offset + bytes(line@) < usize::MAX,
                    lo == span.lo,
                    hi == span.hi,
                    out@ == mid + underline(line@, offset as nat, span).take(c as int),
                decreases line@.len() - c,
            {
                proof {
                    lemma_off_monotonic(line@, c + 1, line@.len() as int);
                }
                let mark = if lo <= pos && pos < hi { '^' } else { ' ' };
                push_char(&mut out, mark);
                assert(underline(line@, offset as nat, span).take(c + 1) =~= underline(
                    line@,
                    offset as nat,
                    span,
                ).take(c as int).push(mark));
                pos = pos + utf8_width(line[c]);
                c = c + 1;
            }
            out.append("\n");
            let ghost text = padded((k + 1) as nat) + " | "@ + lv[k as int] + "\n    | "@ + underline(
                lv[k as int],
                line_start(lv, k as int),
                span,
            ) + "\n"@;
            assert(underline(line@, offset as nat, span).take(c as int) =~= underline(line@, offset as nat, span));
            assert(out@ =~= before + text);
            offset = pos + 1;
            k = k + 1;
            if offset >= hi {
                break;
            }
        }
        out
    }
}

} // verus!
