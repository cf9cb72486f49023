use vstd::prelude::*;

verus! {

/// Line feed.
pub const NEWLINE: u8 = 10;

/// Carriage return.
pub const CARRIAGE_RETURN: u8 = 13;

/// The bytes removed by trimming: space, tab, carriage return and line feed.
pub open spec fn is_trim_byte(b: u8) -> bool {
    b == 32 || b == 9 || b == 13 || b == 10
}

pub open spec fn trim_front(s: Seq<u8>) -> Seq<u8>
    decreases s.len(),
{
    if s.len() > 0 && is_trim_byte(s[0]) {
        trim_front(s.drop_first())
    } else {
        s
    }
}

pub open spec fn trim_back(s: Seq<u8>) -> Seq<u8>
    decreases s.len(),
{
    if s.len() > 0 && is_trim_byte(s.last()) {
        trim_back(s.drop_last())
    } else {
        s
    }
}

/// `s` without its leading and trailing whitespace.
pub open spec fn trimmed(s: Seq<u8>) -> Seq<u8> {
    trim_back(trim_front(s))
}

/// `s` without one trailing carriage return, if it has one.
pub open spec fn strip_cr(s: Seq<u8>) -> Seq<u8> {
    if s.len() > 0 && s.last() == CARRIAGE_RETURN {
        s.drop_last()
    } else {
        s
    }
}

/// The non-empty lines of `s`, where `cur` is the part of the current line already read.
/// A line ended by a line feed loses one trailing carriage return; the last line, which
/// no line feed ends, is kept as it is.
pub open spec fn lines_from(cur: Seq<u8>, s: Seq<u8>) -> Seq<Seq<u8>>
    decreases s.len(),
{
    if s.len() == 0 {
        if cur.len() == 0 {
            seq![]
        } else {
            seq![cur]
        }
    } else if s[0] == NEWLINE {
        let line = strip_cr(cur);
        let rest = lines_from(seq![], s.drop_first());
        if line.len() == 0 {
            rest
        } else {
            seq![line] + rest
        }
    } else {
        lines_from(cur.push(s[0]), s.drop_first())
    }
}

/// The non-empty lines of `s`.
pub open spec fn lines(s: Seq<u8>) -> Seq<Seq<u8>> {
    lines_from(seq![], s)
}

/// The byte strings that a vector of buffers holds.
pub open spec fn byte_strings(v: Seq<Vec<u8>>) -> Seq<Seq<u8>> {
    v.map_values(|x: Vec<u8>| x@)
}

pub open spec fn no_newline(s: Seq<u8>) -> bool {
    forall|k: int| 0 <= k < s.len() ==> s[k] != NEWLINE
}

pub open spec fn ends_with_cr(s: Seq<u8>) -> bool {
    s.len() > 0 && s.last() == CARRIAGE_RETURN
}

/// Returns `data` without leading and trailing spaces, tabs, carriage returns and line feeds.
pub fn trim_bytes(data: &[u8]) -> (r: Vec<u8>)
    ensures
        r@ == trimmed(data@),
{
    let n = data.len();
    let mut i: usize = 0;
    assert(data@.subrange(0, n as int) =~= data@);
    while i < n && (data[i] == 32 || data[i] == 9 || data[i] == 13 || data[i] == 10)
        invariant
            i <= n,
            n == data@.len(),
            trim_front(data@) == trim_front(data@.subrange(i as int, n as int)),
        decreases n - i,
    {
        assert(data@.subrange(i as int, n as int).drop_first() =~= data@.subrange(
            i + 1,
            n as int,
        ));
        i = i + 1;
    }
    assert(trim_front(data@) == data@.subrange(i as int, n as int));
    let mut j: usize = n;
    while j > i && (data[j - 1] == 32 || data[j - 1] == 9 || data[j - 1] == 13 || data[j - 1]
        == 10)
        invariant
            i <= j <= n,
            n == data@.len(),
            trim_back(data@.subrange(i as int, n as int)) == trim_back(
                data@.subrange(i as int, j as int),
            ),
        decreases j,
    {
        assert(data@.subrange(i as int, j as int).drop_last() =~= data@.subrange(
            i as int,
            j - 1,
        ));
        j = j - 1;
    }
    let mut r: Vec<u8> = Vec::new();
    let mut k: usize = i;
    while k < j
        invariant
            i <= k <= j,
            j <= n,
            n == data@.len(),
            r@ == data@.subrange(i as int, k as int),
        decreases j - k,
    {
        r.push(data[k]);
        assert(r@ =~= data@.subrange(i as int, k + 1));
        k = k + 1;
    }
    r
}

/// Splits `data` into its non-empty lines. A line feed ends a line, and so does a carriage
/// return followed by a line feed; what follows the last line feed is the last line.
pub fn split_newlines(data: &[u8]) -> (r: Vec<Vec<u8>>)
    ensures
        byte_strings(r@) == lines(data@),
        forall|k: int|
            0 <= k < r.len() ==> (#[trigger] r[k])@.len() > 0 && no_newline(r[k]@),
{
    let n = data.len();
    let mut parts: Vec<Vec<u8>> = Vec::new();
    let mut cur: Vec<u8> = Vec::new();
    let mut i: usize = 0;
    assert(data@.subrange(0, n as int) =~= data@);
    assert(byte_strings(parts@) + lines(data@) =~= lines(data@));
    while i < n
        invariant
            i <= n,
            n == data@.len(),
            lines(data@) == byte_strings(parts@) + lines_from(cur@, data@.subrange(i as int, n as int)),
        decreases n - i,
    {
        let ghost sub = data@.subrange(i as int, n as int);
        assert(sub.drop_first() =~= data@.subrange(i + 1, n as int));
        let b = data[i];
        if b == NEWLINE {
            if cur.len() > 0 && cur[cur.len() - 1] == CARRIAGE_RETURN {
                cur.pop();
            }
            if cur.len() > 0 {
                let ghost before = byte_strings(parts@);
                parts.push(cur);
                assert(byte_strings(parts@) =~= before.push(cur@));
                assert(before + (seq![cur@] + lines_from(seq![], sub.drop_first())) =~= before.push(
                    cur@,
                ) + lines_from(seq![], sub.drop_first()));
            }
            cur = Vec::new();
        } else {
            cur.push(b);
        }
        i = i + 1;
    }
    if cur.len() > 0 {
        let ghost before = byte_strings(parts@);
        parts.push(cur);
        assert(byte_strings(parts@) =~= before.push(cur@));
        assert(before + seq![cur@] =~= before.push(cur@));
    } else {
        assert(byte_strings(parts@) + seq![] =~= byte_strings(parts@));
    }
    proof {
        lemma_lines_shape(seq![], data@);
        assert forall|k: int| 0 <= k < parts.len() implies (#[trigger] parts[k])@.len() > 0
            && no_newline(parts[k]@) by {
            assert(byte_strings(parts@)[k] == parts[k]@);
        }
    }
    parts
}

/// Every line that `lines_from` yields is non-empty and holds no line feed.
proof fn lemma_lines_shape(cur: Seq<u8>, s: Seq<u8>)
    requires
        no_newline(cur),
    ensures
        forall|k: int|
            0 <= k < lines_from(cur, s).len() ==> (#[trigger] lines_from(cur, s)[k]).len() > 0
                && no_newline(lines_from(cur, s)[k]),
    decreases s.len(),
{
    if s.len() == 0 {
        if cur.len() > 0 {
            assert(lines_from(cur, s) == seq![cur]);
        }
    } else if s[0] == NEWLINE {
        lemma_lines_shape(seq![], s.drop_first());
        let line = strip_cr(cur);
        let rest = lines_from(seq![], s.drop_first());
        assert(no_newline(line)) by {
            if cur.len() > 0 && cur.last() == CARRIAGE_RETURN {
                assert forall|k: int| 0 <= k < line.len() implies line[k] != NEWLINE by {
                    assert(line[k] == cur[k]);
                }
            }
        }
        if line.len() == 0 {
            assert(lines_from(cur, s) == rest);
        } else {
            assert(lines_from(cur, s) == seq![line] + rest);
            assert forall|k: int| 0 <= k < (seq![line] + rest).len() implies (#[trigger] (seq![
                line,
            ] + rest)[k]).len() > 0 && no_newline((seq![line] + rest)[k]) by {
                if k > 0 {
                    assert((seq![line] + rest)[k] == rest[k - 1]);
                } else {
                    assert((seq![line] + rest)[k] == line);
                }
            }
        }
    } else {
        assert forall|k: int| 0 <= k < cur.push(s[0]).len() implies cur.push(s[0])[k]
            != NEWLINE by {
            if k < cur.len() {
                assert(cur.push(s[0])[k] == cur[k]);
            }
        }
        lemma_lines_shape(cur.push(s[0]), s.drop_first());
        assert(lines_from(cur, s) == lines_from(cur.push(s[0]), s.drop_first()));
    }
}

/// Splitting is blind to a carriage return before a line feed: `a`, CR, LF, `b` splits as
/// `a`, LF, `b` does, where `a` (with the line read so far) does not itself end in a
/// carriage return.
proof fn lemma_crlf_as_lf_from(cur: Seq<u8>, a: Seq<u8>, b: Seq<u8>)
    requires
        !ends_with_cr(cur + a),
    ensures
        lines_from(cur, a + seq![CARRIAGE_RETURN, NEWLINE] + b) == lines_from(
            cur,
            a + seq![NEWLINE] + b,
        ),
    decreases a.len(),
{
    let crlf = a + seq![CARRIAGE_RETURN, NEWLINE] + b;
    let lf = a + seq![NEWLINE] + b;
    if a.len() == 0 {
        assert(cur + a =~= cur);
        assert(crlf.drop_first() =~= seq![NEWLINE] + b);
        assert((seq![NEWLINE] + b).drop_first() =~= b);
        assert(lf.drop_first() =~= b);
        assert(cur.push(CARRIAGE_RETURN).drop_last() =~= cur);
        assert(lines_from(cur.push(CARRIAGE_RETURN), seq![NEWLINE] + b) == lines_from(cur, lf));
    } else {
        let a2 = a.drop_first();
        assert(crlf.drop_first() =~= a2 + seq![CARRIAGE_RETURN, NEWLINE] + b);
        assert(lf.drop_first() =~= a2 + seq![NEWLINE] + b);
        assert(crlf[0] == a[0]);
        assert(lf[0] == a[0]);
        if a[0] == NEWLINE {
            if a2.len() > 0 {
                assert((seq![] + a2).last() == (cur + a).last());
            }
            assert(seq![] + a2 =~= a2);
            lemma_crlf_as_lf_from(seq![], a2, b);
        } else {
            assert(cur.push(a[0]) + a2 =~= cur + a);
            lemma_crlf_as_lf_from(cur.push(a[0]), a2, b);
        }
    }
}

/// A carriage return followed by a line feed ends a line as a lone line feed does.
pub proof fn lemma_crlf_as_lf(a: Seq<u8>, b: Seq<u8>)
    requires
        !ends_with_cr(a),
    ensures
        lines(a + seq![CARRIAGE_RETURN, NEWLINE] + b) == lines(a + seq![NEWLINE] + b),
{
    assert(seq![] + a =~= a);
    lemma_crlf_as_lf_from(seq![], a, b);
}

proof fn lemma_trim_front_shape(s: Seq<u8>)
    ensures
        trim_front(s).len() <= s.len(),
        trim_front(s) =~= s.subrange(s.len() - trim_front(s).len(), s.len() as int),
        trim_front(s).len() == 0 || !is_trim_byte(trim_front(s)[0]),
    decreases s.len(),
{
    if s.len() > 0 && is_trim_byte(s[0]) {
        lemma_trim_front_shape(s.drop_first());
    }
}

proof fn lemma_trim_back_shape(s: Seq<u8>)
    ensures
        trim_back(s).len() <= s.len(),
        trim_back(s) =~= s.subrange(0, trim_back(s).len() as int),
        trim_back(s).len() == 0 || !is_trim_byte(trim_back(s).last()),
    decreases s.len(),
{
    if s.len() > 0 && is_trim_byte(s.last()) {
        lemma_trim_back_shape(s.drop_last());
    }
}

/// Trimming twice is trimming once.
pub proof fn lemma_trim_idempotent(s: Seq<u8>)
    ensures
        trimmed(trimmed(s)) == trimmed(s),
{
    let f = trim_front(s);
    let t = trim_back(f);
    lemma_trim_front_shape(s);
    lemma_trim_back_shape(f);
    if t.len() > 0 {
        assert(t[0] == f[0]);
        assert(trim_front(t) == t);
    } else {
        assert(trim_front(t) == t);
    }
    assert(trim_back(t) == t);
}

/// A body of whitespace alone trims to nothing.
pub proof fn lemma_trim_whitespace_only(s: Seq<u8>)
    requires
        forall|k: int| 0 <= k < s.len() ==> is_trim_byte(#[trigger] s[k]),
    ensures
        trimmed(s).len() == 0,
    decreases s.len(),
{
    if s.len() > 0 {
        assert forall|k: int| 0 <= k < s.drop_first().len() implies is_trim_byte(
            #[trigger] s.drop_first()[k],
        ) by {
            assert(s.drop_first()[k] == s[k + 1]);
        }
        lemma_trim_whitespace_only(s.drop_first());
    }
}

/// The lines of `cur` followed by `s` that a line feed ends, in order, each without its line
/// feed and without one carriage return before it; empty lines are kept.
pub open spec fn ended_lines(cur: Seq<u8>, s: Seq<u8>) -> Seq<Seq<u8>>
    decreases s.len(),
{
    if s.len() == 0 {
        seq![]
    } else if s[0] == NEWLINE {
        seq![strip_cr(cur)] + ended_lines(seq![], s.drop_first())
    } else {
        ended_lines(cur.push(s[0]), s.drop_first())
    }
}

/// What of `cur` followed by `s` comes after the last line feed.
pub open spec fn open_line(cur: Seq<u8>, s: Seq<u8>) -> Seq<u8>
    decreases s.len(),
{
    if s.len() == 0 {
        cur
    } else if s[0] == NEWLINE {
        open_line(seq![], s.drop_first())
    } else {
        open_line(cur.push(s[0]), s.drop_first())
    }
}

/// Cuts a body that arrives in chunks into lines at line feeds; `pending` holds the line
/// not yet ended.
pub struct LineFramer {
    pub pending: Vec<u8>,
}

impl LineFramer {
    pub fn new() -> (r: LineFramer)
        ensures
            r.pending@.len() == 0,
    {
        LineFramer { pending: Vec::new() }
    }

    /// Takes the next chunk; returns the lines it ends, each without its line feed and
    /// without one carriage return before it.
    pub fn push(&mut self, chunk: &[u8]) -> (r: Vec<Vec<u8>>)
        ensures
            byte_strings(r@) == ended_lines(old(self).pending@, chunk@),
            final(self).pending@ == open_line(old(self).pending@, chunk@),
    {
        let n = chunk.len();
        let mut lines: Vec<Vec<u8>> = Vec::new();
        let mut i: usize = 0;
        let ghost start = self.pending@;
        assert(chunk@.subrange(0, n as int) =~= chunk@);
        assert(byte_strings(lines@) + ended_lines(start, chunk@) =~= ended_lines(start, chunk@));
        while i < n
            invariant
                i <= n,
                n == chunk@.len(),
                ended_lines(start, chunk@) == byte_strings(lines@) + ended_lines(
                    self.pending@,
                    chunk@.subrange(i as int, n as int),
                ),
                open_line(start, chunk@) == open_line(
                    self.pending@,
                    chunk@.subrange(i as int, n as int),
                ),
            decreases n - i,
        {
            let ghost sub = chunk@.subrange(i as int, n as int);
            assert(sub.drop_first() =~= chunk@.subrange(i + 1, n as int));
            let b = chunk[i];
            if b == NEWLINE {
                let mut line = Vec::new();
                std::mem::swap(&mut line, &mut self.pending);
                let ghost cur = line@;
                if line.len() > 0 && line[line.len() - 1] == CARRIAGE_RETURN {
                    line.pop();
                }
                assert(line@ == strip_cr(cur)) by {
                    if cur.len() > 0 && cur.last() == CARRIAGE_RETURN {
                        assert(line@ =~= cur.drop_last());
                    }
                }
                let ghost before = byte_strings(lines@);
                lines.push(line);
                assert(byte_strings(lines@) =~= before.push(strip_cr(cur)));
                assert(before + (seq![strip_cr(cur)] + ended_lines(seq![], sub.drop_first()))
                    =~= before.push(strip_cr(cur)) + ended_lines(seq![], sub.drop_first()));
                assert(self.pending@ =~= Seq::<u8>::empty());
            } else {
                self.pending.push(b);
            }
            i = i + 1;
        }
        assert(byte_strings(lines@) + seq![] =~= byte_strings(lines@));
        lines
    }

    /// Whether the line not yet ended is already longer than `max` bytes, whatever follows:
    /// longer than `max` with a carriage return left for its line feed.
    pub fn pending_exceeds(&self, max: usize) -> (r: bool)
        ensures
            r == (self.pending@.len() > max + 1),
    {
        self.pending.len() > 0 && self.pending.len() - 1 > max
    }

    /// The body has ended: the line not yet ended, without one trailing carriage return, if
    /// anything is left.
    pub fn finish(self) -> (r: Option<Vec<u8>>)
        ensures
            self.pending@.len() == 0 ==> r is None,
            self.pending@.len() > 0 ==> r is Some && r->0@ == strip_cr(self.pending@),
    {
        if self.pending.len() == 0 {
            return None;
        }
        let mut line = self.pending;
        let ghost cur = line@;
        if line[line.len() - 1] == CARRIAGE_RETURN {
            line.pop();
            assert(line@ =~= cur.drop_last());
        }
        Some(line)
    }
}

} // verus!
