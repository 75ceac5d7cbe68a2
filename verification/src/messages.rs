use vstd::prelude::*;
use vstd::string::StrSliceExecFns;

verus! {

/// The decimal digit character for `d`.
pub open spec fn dec_digit(d: nat) -> char {
    ((d + 48) as u8) as char
}

/// The decimal rendering of `n`, most significant digit first.
pub open spec fn dec_str(n: nat) -> Seq<char>
    decreases n,
{
    if n < 10 {
        seq![dec_digit(n)]
    } else {
        dec_str(n / 10).push(dec_digit(n % 10))
    }
}

/// The `row`-th line of `s` (zero-based), without its newline.
pub open spec fn line_of(s: Seq<char>, row: nat) -> Seq<char>
    decreases s.len(),
{
    if s.len() == 0 {
        Seq::<char>::empty()
    } else if s[0] == '\n' {
        if row == 0 {
            Seq::<char>::empty()
        } else {
            line_of(s.subrange(1, s.len() as int), (row - 1) as nat)
        }
    } else {
        if row == 0 {
            seq![s[0]] + line_of(s.subrange(1, s.len() as int), 0)
        } else {
            line_of(s.subrange(1, s.len() as int), row)
        }
    }
}

/// `n` space characters.
pub open spec fn spaces(n: nat) -> Seq<char>
    decreases n,
{
    if n == 0 {
        Seq::<char>::empty()
    } else {
        spaces((n - 1) as nat).push(' ')
    }
}

/// The message reported for a structural query that failed to compile at the
/// zero-based `row` and `col`: the one-based position, the offending line of
/// the query, and a caret under the offending column.
pub open spec fn query_error_message(q: Seq<char>, row: nat, col: nat) -> Seq<char> {
    "Query error at "@ + dec_str(row + 1) + ":"@ + dec_str(col + 1) + ". Invalid syntax:\n"@
        + line_of(q, row) + "\n"@ + spaces(col) + "^"@
}

/// Appends the decimal rendering of `n`.
fn push_dec(out: &mut Vec<char>, n: usize)
    ensures
        final(out)@ == old(out)@ + dec_str(n as nat),
    decreases n,
{
    if n >= 10 {
        push_dec(out, n / 10);
    }
    let d: u8 = 48 + (n % 10) as u8;
    out.push(d as char);
    assert(final(out)@ == old(out)@ + dec_str(n as nat)) by {
        if n < 10 {
            assert(dec_str(n as nat) =~= seq![dec_digit(n as nat)]);
        } else {
            assert(dec_str(n as nat) == dec_str(n as nat / 10).push(dec_digit(n as nat % 10)));
        }
    }
}

/// Appends every character of `s`.
pub(crate) fn push_str_chars(out: &mut Vec<char>, s: &str)
    ensures
        final(out)@ == old(out)@ + s@,
{
    let n = s.unicode_len();
    let mut i: usize = 0;
    while i < n
        invariant
            i <= n == s@.len(),
            out@ == old(out)@ + s@.subrange(0, i as int),
        decreases n - i,
    {
        out.push(s.get_char(i));
        assert(out@ =~= old(out)@ + s@.subrange(0, i as int + 1));
        i = i + 1;
    }
    assert(final(out)@ =~= old(out)@ + s@);
}

/// Appends the `row`-th line of `q`, counting from the character at `i`.
fn push_line_from(out: &mut Vec<char>, q: &str, i: usize, row: usize)
    requires
        i <= q@.len(),
    ensures
        final(out)@ == old(out)@ + line_of(q@.subrange(i as int, q@.len() as int), row as nat),
    decreases q@.len() - i,
{
    let ghost s = q@.subrange(i as int, q@.len() as int);
    if i == q.unicode_len() {
        assert(s.len() == 0);
        return ;
    }
    let c = q.get_char(i);
    assert(s[0] == c);
    assert(s.subrange(1, s.len() as int) =~= q@.subrange(i as int + 1, q@.len() as int));
    if c == '\n' {
        if row == 0 {
            return ;
        }
        push_line_from(out, q, i + 1, row - 1);
    } else {
        if row == 0 {
            out.push(c);
            push_line_from(out, q, i + 1, 0);
            assert(final(out)@ == old(out)@ + (seq![s[0]] + line_of(
                s.subrange(1, s.len() as int),
                0,
            )));
        } else {
            push_line_from(out, q, i + 1, row);
        }
    }
}

/// Appends `n` spaces.
fn push_spaces(out: &mut Vec<char>, n: usize)
    ensures
        final(out)@ == old(out)@ + spaces(n as nat),
{
    let mut k: usize = 0;
    while k < n
        invariant
            k <= n,
            out@ == old(out)@ + spaces(k as nat),
        decreases n - k,
    {
        out.push(' ');
        k = k + 1;
    }
}

/// Relies on `String::from_iter` through `Iterator::collect`: the resulting
/// string holds exactly the given characters in order.
#[verifier::external_body]
pub(crate) fn string_from_chars(v: &Vec<char>) -> (r: String)
    ensures
        r@ == v@,
{
    v.iter().collect()
}

/// Renders the message for a query that failed to compile at the zero-based
/// `row` and `col`.
pub fn render_query_error(q: &str, row: usize, col: usize) -> (r: String)
    requires
        row < usize::MAX,
        col < usize::MAX,
    ensures
        r@ == query_error_message(q@, row as nat, col as nat),
{
    let mut out: Vec<char> = Vec::new();
    push_str_chars(&mut out, "Query error at ");
    push_dec(&mut out, row + 1);
    push_str_chars(&mut out, ":");
    push_dec(&mut out, col + 1);
    push_str_chars(&mut out, ". Invalid syntax:\n");
    proof {
        assert(q@.subrange(0, q@.len() as int) =~= q@);
    }
    push_line_from(&mut out, q, 0, row);
    push_str_chars(&mut out, "\n");
    push_spaces(&mut out, col);
    push_str_chars(&mut out, "^");
    string_from_chars(&out)
}

} // verus!
