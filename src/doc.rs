//! Documentation comments in the generated client.
use vstd::prelude::*;
use vstd::string::*;

verus! {

/// The characters that `char::is_whitespace` accepts: the Unicode
/// `White_Space` property.
pub open spec fn is_ws(c: char) -> bool {
    let u = c as u32;
    u == 0x20 || (0x09 <= u && u <= 0x0d) || u == 0x85 || u == 0xa0 || u == 0x1680
        || (0x2000 <= u && u <= 0x200a) || u == 0x2028 || u == 0x2029 || u == 0x202f
        || u == 0x205f || u == 0x3000
}

fn is_whitespace(c: char) -> (r: bool)
    ensures
        r == is_ws(c),
{
    let u = c as u32;
    u == 0x20 || (0x09 <= u && u <= 0x0d) || u == 0x85 || u == 0xa0 || u == 0x1680
        || (0x2000 <= u && u <= 0x200a) || u == 0x2028 || u == 0x2029 || u == 0x202f
        || u == 0x205f || u == 0x3000
}

/// The start of the text without its leading white space.
pub open spec fn trim_start_at(s: Seq<char>, i: int) -> int
    decreases s.len() - i,
{
    if i < s.len() && is_ws(s[i]) { trim_start_at(s, i + 1) } else { i }
}

/// The end of the text without its trailing white space.
pub open spec fn trim_end_at(s: Seq<char>, j: int) -> int
    decreases j,
{
    if j > 0 && is_ws(s[j - 1]) { trim_end_at(s, j - 1) } else { j }
}

/// The text without leading and trailing white space.
pub open spec fn trimmed(s: Seq<char>) -> Seq<char> {
    let a = trim_start_at(s, 0);
    let b = trim_end_at(s, s.len() as int);
    if a >= b { Seq::empty() } else { s.subrange(a, b) }
}

pub fn trim(s: &str) -> (r: &str)
    ensures
        r@ == trimmed(s@),
{
    let n = s.unicode_len();
    let mut a: usize = 0;
    while a < n && is_whitespace(s.get_char(a))
        invariant
            n == s@.len(),
            a <= n,
            trim_start_at(s@, 0) == trim_start_at(s@, a as int),
        decreases n - a,
    {
        a = a + 1;
    }
    let mut b: usize = n;
    while b > 0 && is_whitespace(s.get_char(b - 1))
        invariant
            n == s@.len(),
            b <= n,
            trim_end_at(s@, n as int) == trim_end_at(s@, b as int),
        decreases b,
    {
        b = b - 1;
    }
    if a >= b {
        s.substring_char(0, 0)
    } else {
        s.substring_char(a, b)
    }
}

/// A line without a carriage return at its end.
pub open spec fn strip_cr(l: Seq<char>) -> Seq<char> {
    if l.len() > 0 && l.last() == '\r' { l.drop_last() } else { l }
}

/// The lines of text that neither starts nor ends with white space, as
/// `str::lines` gives them: split at each line feed, each without a carriage
/// return before it; none for empty text.
pub open spec fn lines_of(s: Seq<char>) -> Seq<Seq<char>>
    decreases s.len(),
{
    if s.len() == 0 {
        Seq::empty()
    } else {
        lines_acc(s, 0, 0)
    }
}

/// The lines from position `start`, the current one having begun at `start`
/// and been read up to `i`.
pub open spec fn lines_acc(s: Seq<char>, start: int, i: int) -> Seq<Seq<char>>
    decreases s.len() - i,
{
    if i >= s.len() {
        seq![strip_cr(s.subrange(start, s.len() as int))]
    } else if s[i] == '\n' {
        seq![strip_cr(s.subrange(start, i))] + lines_acc(s, i + 1, i + 1)
    } else {
        lines_acc(s, start, i + 1)
    }
}

/// A documentation comment: nothing for empty text; otherwise `/**`, each
/// line of the trimmed text after ` * `, and ` */`, each on a line of its own.
pub open spec fn doc_comment(s: Seq<char>) -> Seq<char> {
    if s.len() == 0 {
        Seq::empty()
    } else {
        "/**\n"@ + star_lines(lines_of(trimmed(s))) + " */\n"@
    }
}

pub open spec fn star_lines(ls: Seq<Seq<char>>) -> Seq<char>
    decreases ls.len(),
{
    if ls.len() == 0 {
        Seq::empty()
    } else {
        star_lines(ls.drop_last()) + " * "@ + ls.last() + "\n"@
    }
}

fn push_line(out: &mut String, t: &str, from: usize, to: usize)
    requires
        from <= to <= t@.len(),
    ensures
        final(out)@ == old(out)@ + " * "@ + strip_cr(t@.subrange(from as int, to as int)) + "\n"@,
{
    let mut end = to;
    if to > from && t.get_char(to - 1) == '\r' {
        end = to - 1;
    }
    proof {
        let l = t@.subrange(from as int, to as int);
        if l.len() > 0 && l.last() == '\r' {
            assert(l.drop_last() =~= t@.subrange(from as int, end as int));
        } else {
            assert(end == to);
        }
    }
    out.append(" * ");
    out.append(t.substring_char(from, end));
    out.append("\n");
}

/// Writes `lines` as a documentation comment.
pub fn write_doc_comments(lines: &str) -> (r: String)
    ensures
        r@ == doc_comment(lines@),
{
    if lines.unicode_len() == 0 {
        return String::new();
    }
    let t = trim(lines);
    let n = t.unicode_len();
    let mut out = String::from_str("/**\n");
    if n > 0 {
        let mut start: usize = 0;
        let mut i: usize = 0;
        let ghost done: Seq<Seq<char>> = Seq::empty();
        while i < n
            invariant
                n == t@.len(),
                n > 0,
                start <= i <= n,
                out@ == "/**\n"@ + star_lines(done),
                lines_of(t@) == done + lines_acc(t@, start as int, i as int),
            decreases n - i,
        {
            if t.get_char(i) == '\n' {
                push_line(&mut out, t, start, i);
                proof {
                    let l = strip_cr(t@.subrange(start as int, i as int));
                    assert(done.push(l).drop_last() =~= done);
                    assert(out@ =~= "/**\n"@ + star_lines(done.push(l)));
                    assert(done + lines_acc(t@, start as int, i as int) =~= done.push(l) + lines_acc(t@, i + 1, i + 1));
                    done = done.push(l);
                }
                start = i + 1;
            }
            i = i + 1;
        }
        push_line(&mut out, t, start, n);
        proof {
            let l = strip_cr(t@.subrange(start as int, n as int));
            assert(done.push(l).drop_last() =~= done);
            assert(out@ =~= "/**\n"@ + star_lines(done.push(l)));
            assert(lines_of(t@) =~= done.push(l));
        }
    } else {
        proof {
            assert(lines_of(t@) =~= Seq::<Seq<char>>::empty());
        }
    }
    out.append(" */\n");
    out
}

} // verus!
