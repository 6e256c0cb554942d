//! Commands whose output is streamed to the user line by line, and the
//! cleaning of that output: terminal escape sequences removed, the text cut
//! into trimmed lines at `\n` or `\r`.

use vstd::prelude::*;
use crate::text::{chars_of, string_of, string_of_str, trim, trim_vec};

verus! {

/// A program and its arguments, to be run with its output streamed; the last
/// line of a stream is `__done__<exit code>`.
#[derive(Debug, Clone)]
pub struct StreamCommand {
    pub program: String,
    pub args: Vec<String>,
}

pub open spec fn arg_views(a: Seq<String>) -> Seq<Seq<char>> {
    a.map_values(|x: String| x@)
}

impl StreamCommand {
    /// The program and arguments as text.
    pub open spec fn words(self) -> (Seq<char>, Seq<Seq<char>>) {
        (self.program@, arg_views(self.args@))
    }
}

/// A command from a program name and argument texts.
pub fn command(program: &str, args: Vec<String>) -> (c: StreamCommand)
    ensures
        c.program@ == program@,
        c.args@ == args@,
{
    StreamCommand { program: string_of_str(program), args }
}

/// Append an argument.
pub fn push_arg(args: &mut Vec<String>, a: &str)
    ensures
        arg_views(final(args)@) == arg_views(old(args)@).push(a@),
{
    let ghost o = arg_views(args@);
    args.push(string_of_str(a));
    assert(arg_views(args@) =~= o.push(a@));
}

// ── Terminal escape sequences ───────────────────────────────────────────────

pub open spec fn is_alpha_byte(b: u8) -> bool {
    (0x41 <= b && b <= 0x5a) || (0x61 <= b && b <= 0x7a)
}

/// The index just past a control sequence (`ESC [` … final letter) whose
/// body starts at `i`.
pub open spec fn csi_end(s: Seq<u8>, i: int) -> int
    decreases s.len() - i,
{
    if i < 0 || i >= s.len() {
        i
    } else if is_alpha_byte(s[i]) {
        i + 1
    } else {
        csi_end(s, i + 1)
    }
}

/// The index just past an operating-system command (`ESC ]` … BEL or
/// `ESC \`) whose body starts at `i`.
pub open spec fn osc_end(s: Seq<u8>, i: int) -> int
    decreases s.len() - i,
{
    if i < 0 || i >= s.len() {
        i
    } else if s[i] == 0x07 {
        i + 1
    } else if s[i] == 0x1b && i + 1 < s.len() && s[i + 1] == 0x5c {
        i + 2
    } else {
        osc_end(s, i + 1)
    }
}

pub proof fn lemma_csi_end(s: Seq<u8>, i: int)
    ensures
        csi_end(s, i) >= i,
        0 <= i ==> csi_end(s, i) <= s.len() || csi_end(s, i) == i,
    decreases s.len() - i,
{
    if 0 <= i < s.len() && !is_alpha_byte(s[i]) {
        lemma_csi_end(s, i + 1);
    }
}

pub proof fn lemma_osc_end(s: Seq<u8>, i: int)
    ensures
        osc_end(s, i) >= i,
        0 <= i ==> osc_end(s, i) <= s.len() || osc_end(s, i) == i,
    decreases s.len() - i,
{
    if 0 <= i < s.len() && !(s[i] == 0x07) && !(s[i] == 0x1b && i + 1 < s.len() && s[i + 1]
        == 0x5c) {
        lemma_osc_end(s, i + 1);
    }
}

/// The bytes of `s` from `i` on with escape sequences removed: `ESC [` up
/// to a letter, `ESC ]` up to BEL or `ESC \`, and `ESC` with any other byte.
pub open spec fn strip_from(s: Seq<u8>, i: int) -> Seq<u8>
    decreases s.len() - i,
{
    if i < 0 || i >= s.len() {
        Seq::empty()
    } else if s[i] == 0x1b {
        if i + 1 >= s.len() {
            Seq::empty()
        } else if s[i + 1] == 0x5b {
            proof {
                lemma_csi_end(s, i + 2);
            }
            strip_from(s, csi_end(s, i + 2))
        } else if s[i + 1] == 0x5d {
            proof {
                lemma_osc_end(s, i + 2);
            }
            strip_from(s, osc_end(s, i + 2))
        } else {
            strip_from(s, i + 2)
        }
    } else {
        seq![s[i]] + strip_from(s, i + 1)
    }
}

pub open spec fn strip_ansi_spec(s: Seq<u8>) -> Seq<u8> {
    strip_from(s, 0)
}

/// Remove terminal escape sequences from raw output.
pub fn strip_ansi(input: &[u8]) -> (out: Vec<u8>)
    ensures
        out@ == strip_ansi_spec(input@),
{
    let n = input.len();
    let mut out: Vec<u8> = Vec::new();
    let mut i: usize = 0;
    while i < n
        invariant
            n == input@.len(),
            i <= n,
            out@ + strip_from(input@, i as int) == strip_ansi_spec(input@),
        decreases n - i,
    {
        if input[i] == 0x1b {
            let ghost esc = i as int;
            i = i + 1;
            if i >= n {
                assert(out@ + Seq::<u8>::empty() =~= out@);
                return out;
            }
            if input[i] == 0x5b {
                i = i + 1;
                let ghost e = csi_end(input@, i as int);
                proof {
                    lemma_csi_end(input@, i as int);
                }
                while i < n && !((0x41 <= input[i] && input[i] <= 0x5a) || (0x61 <= input[i]
                    && input[i] <= 0x7a))
                    invariant
                        n == input@.len(),
                        i <= n,
                        csi_end(input@, i as int) == e,
                    decreases n - i,
                {
                    i = i + 1;
                }
                if i < n {
                    i = i + 1;
                }
                assert(i == e);
            } else if input[i] == 0x5d {
                i = i + 1;
                let ghost e = osc_end(input@, i as int);
                proof {
                    lemma_osc_end(input@, i as int);
                }
                while i < n && input[i] != 0x07 && !(input[i] == 0x1b && i + 1 < n && input[i + 1]
                    == 0x5c)
                    invariant
                        n == input@.len(),
                        i <= n,
                        osc_end(input@, i as int) == e,
                    decreases n - i,
                {
                    i = i + 1;
                }
                if i < n {
                    if input[i] == 0x07 {
                        i = i + 1;
                    } else {
                        i = i + 2;
                    }
                }
                assert(i == e);
            } else {
                i = i + 1;
            }
        } else {
            let ghost o = out@;
            out.push(input[i]);
            assert(out@ + strip_from(input@, i + 1) =~= o + strip_from(input@, i as int));
            i = i + 1;
        }
    }
    assert(out@ + Seq::<u8>::empty() =~= out@);
    out
}


proof fn lemma_strip_no_esc(s: Seq<u8>, i: int)
    ensures
        forall|k: int| 0 <= k < strip_from(s, i).len() ==> #[trigger] strip_from(s, i)[k] != 0x1b,
    decreases s.len() - i,
{
    if 0 <= i < s.len() {
        if s[i] == 0x1b {
            if i + 1 < s.len() {
                if s[i + 1] == 0x5b {
                    lemma_csi_end(s, i + 2);
                    lemma_strip_no_esc(s, csi_end(s, i + 2));
                    assert(strip_from(s, i) == strip_from(s, csi_end(s, i + 2)));
                } else if s[i + 1] == 0x5d {
                    lemma_osc_end(s, i + 2);
                    lemma_strip_no_esc(s, osc_end(s, i + 2));
                    assert(strip_from(s, i) == strip_from(s, osc_end(s, i + 2)));
                } else {
                    lemma_strip_no_esc(s, i + 2);
                    assert(strip_from(s, i) == strip_from(s, i + 2));
                }
            }
        } else {
            lemma_strip_no_esc(s, i + 1);
            let r = strip_from(s, i + 1);
            assert forall|k: int| 0 <= k < strip_from(s, i).len() implies #[trigger] strip_from(
                s,
                i,
            )[k] != 0x1b by {
                if k > 0 {
                    assert(strip_from(s, i)[k] == r[k - 1]);
                }
            }
        }
    }
}

/// Stripped output holds no escape byte.
pub proof fn law_strip_leaves_no_escape(s: Seq<u8>)
    ensures
        forall|k: int|
            0 <= k < strip_ansi_spec(s).len() ==> #[trigger] strip_ansi_spec(s)[k] != 0x1b,
{
    lemma_strip_no_esc(s, 0);
}

proof fn lemma_strip_plain(s: Seq<u8>, i: int)
    requires
        0 <= i <= s.len(),
        forall|k: int| 0 <= k < s.len() ==> #[trigger] s[k] != 0x1b,
    ensures
        strip_from(s, i) == s.subrange(i, s.len() as int),
    decreases s.len() - i,
{
    if i < s.len() {
        lemma_strip_plain(s, i + 1);
        assert(seq![s[i]] + s.subrange(i + 1, s.len() as int) =~= s.subrange(i, s.len() as int));
    } else {
        assert(s.subrange(i, s.len() as int) =~= Seq::<u8>::empty());
    }
}

/// Output without escape bytes passes through unchanged.
pub proof fn law_strip_keeps_plain_text(s: Seq<u8>)
    requires
        forall|k: int| 0 <= k < s.len() ==> #[trigger] s[k] != 0x1b,
    ensures
        strip_ansi_spec(s) == s,
{
    lemma_strip_plain(s, 0);
    assert(s.subrange(0, s.len() as int) =~= s);
}

/// `a` is `b` with some bytes left out, the rest in their order.
pub open spec fn is_subsequence(a: Seq<u8>, b: Seq<u8>) -> bool
    decreases b.len(),
{
    if b.len() == 0 {
        a.len() == 0
    } else {
        (a.len() > 0 && a[0] == b[0] && is_subsequence(a.drop_first(), b.drop_first()))
            || is_subsequence(a, b.drop_first())
    }
}

proof fn lemma_empty_subsequence(b: Seq<u8>)
    ensures
        is_subsequence(Seq::empty(), b),
    decreases b.len(),
{
    if b.len() > 0 {
        lemma_empty_subsequence(b.drop_first());
    }
}

/// Leaving out the bytes of `s` from `i` up to `j` keeps a subsequence.
proof fn lemma_skip_prefix(a: Seq<u8>, s: Seq<u8>, i: int, j: int)
    requires
        0 <= i <= j <= s.len(),
        is_subsequence(a, s.subrange(j, s.len() as int)),
    ensures
        is_subsequence(a, s.subrange(i, s.len() as int)),
    decreases j - i,
{
    if i < j {
        lemma_skip_prefix(a, s, i + 1, j);
        assert(s.subrange(i, s.len() as int).drop_first() =~= s.subrange(i + 1, s.len() as int));
    }
}

proof fn lemma_strip_subsequence(s: Seq<u8>, i: int)
    requires
        0 <= i <= s.len(),
    ensures
        is_subsequence(strip_from(s, i), s.subrange(i, s.len() as int)),
    decreases s.len() - i,
{
    let rest = s.subrange(i, s.len() as int);
    if i == s.len() {
        assert(rest =~= Seq::<u8>::empty());
    } else if s[i] == 0x1b {
        let j = if i + 1 >= s.len() {
            s.len() as int
        } else if s[i + 1] == 0x5b {
            lemma_csi_end(s, i + 2);
            csi_end(s, i + 2)
        } else if s[i + 1] == 0x5d {
            lemma_osc_end(s, i + 2);
            osc_end(s, i + 2)
        } else {
            i + 2
        };
        if i + 1 >= s.len() {
            lemma_empty_subsequence(rest);
        } else {
            assert(strip_from(s, i) == strip_from(s, j));
            lemma_strip_subsequence(s, j);
            lemma_skip_prefix(strip_from(s, i), s, i, j);
        }
    } else {
        lemma_strip_subsequence(s, i + 1);
        let a = strip_from(s, i);
        assert(a.drop_first() =~= strip_from(s, i + 1));
        assert(rest.drop_first() =~= s.subrange(i + 1, s.len() as int));
    }
}

/// Stripping only leaves bytes out: what remains is a subsequence of the
/// input.
pub proof fn law_strip_is_subsequence(s: Seq<u8>)
    ensures
        is_subsequence(strip_ansi_spec(s), s),
{
    lemma_strip_subsequence(s, 0);
    assert(s.subrange(0, s.len() as int) =~= s);
}

// ── Cutting output into lines ───────────────────────────────────────────────

pub open spec fn is_line_break(c: char) -> bool {
    c == '\n' || c == '\r'
}

/// Index of the first `\n` or `\r`, or -1.
pub open spec fn first_break(s: Seq<char>) -> int
    decreases s.len(),
{
    if s.len() == 0 {
        -1
    } else if is_line_break(s[0]) {
        0
    } else {
        let r = first_break(s.drop_first());
        if r < 0 {
            -1
        } else {
            r + 1
        }
    }
}

pub proof fn lemma_first_break(s: Seq<char>)
    ensures
        -1 <= first_break(s) < s.len(),
        first_break(s) >= 0 ==> is_line_break(s[first_break(s)]),
        forall|j: int| 0 <= j < first_break(s) ==> !is_line_break(#[trigger] s[j]),
        first_break(s) < 0 ==> forall|j: int| 0 <= j < s.len() ==> !is_line_break(#[trigger] s[j]),
    decreases s.len(),
{
    if s.len() > 0 && !is_line_break(s[0]) {
        lemma_first_break(s.drop_first());
        assert forall|j: int| 1 <= j < s.len() implies s[j] == s.drop_first()[j - 1] by {}
    }
}

proof fn lemma_first_break_at(s: Seq<char>, k: int)
    requires
        0 <= k < s.len(),
        is_line_break(s[k]),
        forall|j: int| 0 <= j < k ==> !is_line_break(#[trigger] s[j]),
    ensures
        first_break(s) == k,
    decreases k,
{
    if k > 0 {
        assert forall|j: int| 0 <= j < k - 1 implies !is_line_break(#[trigger] s.drop_first()[j]) by {
            assert(s.drop_first()[j] == s[j + 1]);
        }
        lemma_first_break_at(s.drop_first(), k - 1);
    }
}

/// The complete lines of buffered output (trimmed, empty ones dropped) and
/// the unfinished rest that stays buffered.
pub open spec fn flush_spec(s: Seq<char>) -> (Seq<Seq<char>>, Seq<char>)
    decreases s.len(),
{
    let k = first_break(s);
    if k < 0 {
        (Seq::empty(), s)
    } else {
        proof {
            lemma_first_break(s);
        }
        let (sent, rest) = flush_spec(s.subrange(k + 1, s.len() as int));
        let seg = trim(s.subrange(0, k));
        (
            if seg.len() > 0 {
                seq![seg] + sent
            } else {
                sent
            },
            rest,
        )
    }
}

/// Cut buffered output into the lines to send now and the rest to keep.
pub fn flush_lines(pending: &str) -> (r: (Vec<String>, String))
    ensures
        (r.0@.map_values(|x: String| x@), r.1@) == flush_spec(pending@),
{
    let v = chars_of(pending);
    let n = v.len();
    let mut sent: Vec<String> = Vec::new();
    let mut start: usize = 0;
    let mut i: usize = 0;
    assert(v@.subrange(0, n as int) =~= v@);
    while i < n
        invariant
            n == v@.len(),
            v@ == pending@,
            start <= i <= n,
            forall|j: int| start <= j < i ==> !is_line_break(#[trigger] v@[j]),
            ({
                let (s2, r2) = flush_spec(v@.subrange(start as int, n as int));
                sent@.map_values(|x: String| x@) + s2 == flush_spec(pending@).0 && r2
                    == flush_spec(pending@).1
            }),
        decreases n - i,
    {
        if v[i] == '\n' || v[i] == '\r' {
            let ghost t = v@.subrange(start as int, n as int);
            proof {
                assert forall|j: int| 0 <= j < i - start implies !is_line_break(#[trigger] t[j]) by {
                    assert(t[j] == v@[start + j]);
                }
                assert(t[i - start] == v@[i as int]);
                lemma_first_break_at(t, i - start);
                assert(t.subrange(i - start + 1, t.len() as int) =~= v@.subrange(i + 1, n as int));
                assert(t.subrange(0, i - start) =~= v@.subrange(start as int, i as int));
            }
            let seg = trim_vec(&crate::text::subvec(&v, start, i));
            if seg.len() > 0 {
                let ghost o = sent@.map_values(|x: String| x@);
                sent.push(string_of(&seg));
                assert(sent@.map_values(|x: String| x@) =~= o.push(seg@));
                let ghost s2 = flush_spec(v@.subrange(i + 1, n as int)).0;
                assert(o.push(seg@) + s2 =~= o + (seq![seg@] + s2));
            }
            start = i + 1;
        }
        i = i + 1;
    }
    let ghost t = v@.subrange(start as int, n as int);
    proof {
        lemma_first_break(t);
        if first_break(t) >= 0 {
            assert(t[first_break(t)] == v@[start + first_break(t)]);
            assert(false);
        }
    }
    let rest = crate::text::subvec(&v, start, n);
    assert(sent@.map_values(|x: String| x@) + Seq::<Seq<char>>::empty() =~= sent@.map_values(
        |x: String| x@,
    ));
    (sent, string_of(&rest))
}

/// The buffered rest once the output has ended: sent when it is more than
/// whitespace.
pub fn flush_tail(pending: &str) -> (r: Option<String>)
    ensures
        match r {
            Some(l) => l@ == trim(pending@) && l@.len() > 0,
            None => trim(pending@).len() == 0,
        },
{
    let t = trim_vec(&chars_of(pending));
    if t.len() > 0 {
        Some(string_of(&t))
    } else {
        None
    }
}

/// The last line of every stream.
pub fn done_line(code: i32) -> (r: String)
    ensures
        r@ == "__done__"@ + crate::num::fmt_padded(code as int, 1),
{
    let mut out = chars_of("__done__");
    let digits = crate::num::fmt_i64_padded(code as i64, 1);
    let mut k: usize = 0;
    let ghost o = out@;
    while k < digits.len()
        invariant
            k <= digits@.len(),
            out@ == o + digits@.subrange(0, k as int),
        decreases digits@.len() - k,
    {
        out.push(digits[k]);
        k = k + 1;
        assert(out@ =~= o + digits@.subrange(0, k as int));
    }
    assert(digits@.subrange(0, digits@.len() as int) =~= digits@);
    string_of(&out)
}


/// What stays buffered holds no line break, and every line sent is
/// non-empty and has no surrounding whitespace.
pub proof fn law_flush_lines(s: Seq<char>)
    ensures
        forall|j: int|
            0 <= j < flush_spec(s).1.len() ==> !is_line_break(#[trigger] flush_spec(s).1[j]),
        forall|k: int|
            0 <= k < flush_spec(s).0.len() ==> (#[trigger] flush_spec(s).0[k]).len() > 0
                && trim(flush_spec(s).0[k]) == flush_spec(s).0[k],
    decreases s.len(),
{
    lemma_first_break(s);
    let k = first_break(s);
    if k >= 0 {
        let t = s.subrange(k + 1, s.len() as int);
        law_flush_lines(t);
        let seg = trim(s.subrange(0, k));
        crate::text::lemma_trim_idem(s.subrange(0, k));
        let (sent, rest) = flush_spec(t);
        if seg.len() > 0 {
            assert forall|i: int| 0 <= i < flush_spec(s).0.len() implies (
            #[trigger] flush_spec(s).0[i]).len() > 0 && trim(flush_spec(s).0[i])
                == flush_spec(s).0[i] by {
                if i > 0 {
                    assert(flush_spec(s).0[i] == sent[i - 1]);
                }
            }
        }
    }
}

} // verus!
