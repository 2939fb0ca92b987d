//! Shared text-encoding building blocks: indentation, decimal rendering of
//! integers, string escaping, base64 for binary blobs, and comma-joining.
//!
//! Every executable function appends to a `String` sink and states in its
//! contract exactly which character sequence it appends.

use vstd::prelude::*;
use vstd::string::StrSliceExecFns;
use vstd::string::StringExecFns;

verus! {

/// One tab per open nesting level.
pub open spec fn ind_text(depth: nat) -> Seq<char> {
    Seq::new(depth, |i: int| '\t')
}

/// The decimal digit character for `d` (meaningful for `d < 10`).
pub open spec fn digit_char(d: nat) -> char {
    "0123456789"@[d as int]
}

/// Decimal rendering of a natural number, most significant digit first.
pub open spec fn dec_nat(n: nat) -> Seq<char>
    decreases n,
{
    if n < 10 {
        seq![digit_char(n)]
    } else {
        dec_nat(n / 10) + seq![digit_char(n % 10)]
    }
}

/// Decimal rendering of an integer: a leading `-` for negative values.
pub open spec fn dec_int(v: int) -> Seq<char> {
    if v < 0 {
        seq!['-'] + dec_nat((-v) as nat)
    } else {
        dec_nat(v as nat)
    }
}

/// FBX text escaping of one character: `"`, line feed and carriage return
/// become `&quot;`, `&lf;` and `&cr;`; every other character passes through.
pub open spec fn escape_char(c: char) -> Seq<char> {
    if c == '"' {
        "&quot;"@
    } else if c == '\n' {
        "&lf;"@
    } else if c == '\r' {
        "&cr;"@
    } else {
        seq![c]
    }
}

/// FBX text escaping of a whole string.
pub open spec fn escape_text(s: Seq<char>) -> Seq<char>
    decreases s.len(),
{
    if s.len() == 0 {
        Seq::<char>::empty()
    } else {
        escape_char(s[0]) + escape_text(s.drop_first())
    }
}

/// The standard base64 alphabet character for `v` (meaningful for `v < 64`).
pub open spec fn b64_char(v: nat) -> char {
    "ABCDEFGHIJKLMNOPQRSTUVWXYZabcdefghijklmnopqrstuvwxyz0123456789+/"@[v as int]
}

/// Standard base64 with `=` padding: each group of three bytes becomes four
/// alphabet characters; a final group of one or two bytes is padded.
pub open spec fn base64_text(b: Seq<u8>) -> Seq<char>
    decreases b.len(),
{
    if b.len() == 0 {
        Seq::<char>::empty()
    } else if b.len() == 1 {
        let x = b[0] as nat;
        seq![b64_char(x / 4), b64_char((x % 4) * 16), '=', '=']
    } else if b.len() == 2 {
        let x = b[0] as nat;
        let y = b[1] as nat;
        seq![b64_char(x / 4), b64_char((x % 4) * 16 + y / 16), b64_char((y % 16) * 4), '=']
    } else {
        let x = b[0] as nat;
        let y = b[1] as nat;
        let z = b[2] as nat;
        seq![
            b64_char(x / 4),
            b64_char((x % 4) * 16 + y / 16),
            b64_char((y % 16) * 4 + z / 64),
            b64_char(z % 64),
        ] + base64_text(b.skip(3))
    }
}

/// The index of the first line feed in `s`, or `s.len()` if there is none.
pub open spec fn first_nl(s: Seq<char>) -> nat
    decreases s.len(),
{
    if s.len() == 0 {
        0
    } else if s[0] == '\n' {
        0
    } else {
        1 + first_nl(s.drop_first())
    }
}

/// A line with a trailing carriage return removed; other lines unchanged.
pub open spec fn strip_trailing_cr(l: Seq<char>) -> Seq<char> {
    if l.len() > 0 && l[l.len() - 1] == '\r' {
        l.drop_last()
    } else {
        l
    }
}

/// The text a comment produces: each line of `s` (split at line feeds, a
/// carriage return before a line feed dropped) indented to `depth` and
/// terminated by a line feed.  An empty comment produces nothing.
pub open spec fn comment_text(s: Seq<char>, depth: nat) -> Seq<char>
    decreases s.len(),
{
    if s.len() == 0 {
        Seq::<char>::empty()
    } else {
        let i = first_nl(s);
        if i < s.len() {
            ind_text(depth) + strip_trailing_cr(s.take(i as int)) + seq!['\n'] + comment_text(
                s.skip(i as int + 1),
                depth,
            )
        } else {
            ind_text(depth) + s + seq!['\n']
        }
    }
}

/// Characterizes `first_nl`: if nothing before `j` is a line feed and `j`
/// (when in range) is one, then `j` is the first line feed position.
pub proof fn lemma_first_nl_at(s: Seq<char>, j: int)
    requires
        0 <= j <= s.len(),
        forall|k: int| 0 <= k < j ==> s[k] != '\n',
        j < s.len() ==> s[j] == '\n',
    ensures
        first_nl(s) == j,
    decreases j,
{
    if j == 0 {
        if s.len() > 0 {
            assert(s[0] == '\n');
        }
    } else {
        assert(s[0] != '\n');
        lemma_first_nl_at(s.drop_first(), j - 1);
    }
}

/// The items joined with `sep` between neighbours.
pub open spec fn join(items: Seq<Seq<char>>, sep: Seq<char>) -> Seq<char>
    decreases items.len(),
{
    if items.len() == 0 {
        Seq::<char>::empty()
    } else if items.len() == 1 {
        items[0]
    } else {
        items[0] + sep + join(items.drop_first(), sep)
    }
}

/// Joining one more item appends a separator and that item.
pub proof fn lemma_join_snoc(items: Seq<Seq<char>>, sep: Seq<char>)
    requires
        items.len() >= 2,
    ensures
        join(items, sep) == join(items.drop_last(), sep) + sep + items.last(),
    decreases items.len(),
{
    if items.len() == 2 {
        assert(items.drop_first().len() == 1);
        assert(join(items.drop_first(), sep) == items.drop_first()[0]);
        assert(items.drop_first()[0] == items[1]);
        assert(join(items, sep) == items[0] + sep + items[1]);
        assert(items.drop_last() =~= seq![items[0]]);
        assert(join(items.drop_last(), sep) + sep + items.last() =~= items[0] + sep + items[1]);
    } else {
        lemma_join_snoc(items.drop_first(), sep);
        assert(items.drop_first().drop_last() =~= items.drop_last().drop_first());
        assert(items.drop_last().len() >= 2);
        assert(join(items.drop_last(), sep) == items.drop_last()[0] + sep + join(
            items.drop_last().drop_first(),
            sep,
        ));
        assert(items.drop_last()[0] == items[0]);
        assert(items.drop_first().last() == items.last());
        assert(join(items, sep) == items[0] + sep + join(items.drop_first(), sep));
        assert(join(items.drop_first(), sep) == join(items.drop_first().drop_last(), sep) + sep
            + items.last());
        assert(items[0] + sep + (join(items.drop_first().drop_last(), sep) + sep + items.last())
            =~= (items[0] + sep + join(items.drop_last().drop_first(), sep)) + sep + items.last());
    }
}

/// Escaping distributes over concatenation.
pub proof fn lemma_escape_append(a: Seq<char>, b: Seq<char>)
    ensures
        escape_text(a + b) == escape_text(a) + escape_text(b),
    decreases a.len(),
{
    if a.len() == 0 {
        assert(a + b =~= b);
        assert(escape_text(a) + escape_text(b) =~= escape_text(b));
    } else {
        assert((a + b).len() > 0);
        assert((a + b)[0] == a[0]);
        assert((a + b).drop_first() =~= a.drop_first() + b);
        lemma_escape_append(a.drop_first(), b);
        assert(escape_char(a[0]) + (escape_text(a.drop_first()) + escape_text(b)) =~= (escape_char(
            a[0],
        ) + escape_text(a.drop_first())) + escape_text(b));
    }
}

/// Relies on `String::push`: appends exactly the one given character.
#[verifier::external_body]
pub(crate) fn push_char(sink: &mut String, c: char)
    ensures
        final(sink)@ == old(sink)@ + seq![c],
{
    sink.push(c);
}

/// Relies on `base64::encode`: standard alphabet, `=` padding, four output
/// characters for every full or partial group of three input bytes.
#[verifier::external_body]
pub(crate) fn base64_encode(bytes: &[u8]) -> (r: String)
    ensures
        r@ == base64_text(bytes@),
{
    base64::encode(bytes)
}

/// The characters of `s`, as a vector.
pub(crate) fn str_chars(s: &str) -> (v: Vec<char>)
    ensures
        v@ == s@,
{
    let n: usize = s.unicode_len();
    let mut v: Vec<char> = Vec::new();
    let mut i: usize = 0;
    while i < n
        invariant
            n == s@.len(),
            i <= n,
            v@ == s@.take(i as int),
        decreases n - i,
    {
        v.push(s.get_char(i));
        proof {
            assert(v@ =~= s@.take((i + 1) as int));
        }
        i = i + 1;
    }
    proof {
        assert(s@.take(n as int) =~= s@);
    }
    v
}

/// Appends `depth` tabs.
pub(crate) fn push_ind(sink: &mut String, depth: usize)
    ensures
        final(sink)@ == old(sink)@ + ind_text(depth as nat),
{
    proof {
        assert(old(sink)@ + ind_text(0) =~= old(sink)@);
    }
    let mut i: usize = 0;
    while i < depth
        invariant
            i <= depth,
            sink@ == old(sink)@ + ind_text(i as nat),
        decreases depth - i,
    {
        sink.append("\t");
        proof {
            reveal_strlit("\t");
            assert(sink@ =~= old(sink)@ + ind_text((i + 1) as nat));
        }
        i = i + 1;
    }
}

/// The one-character string for a decimal digit.
fn digit_str(d: u64) -> (s: &'static str)
    requires
        d < 10,
    ensures
        s@ == seq![digit_char(d as nat)],
{
    let s: &'static str = if d == 0 {
        "0"
    } else if d == 1 {
        "1"
    } else if d == 2 {
        "2"
    } else if d == 3 {
        "3"
    } else if d == 4 {
        "4"
    } else if d == 5 {
        "5"
    } else if d == 6 {
        "6"
    } else if d == 7 {
        "7"
    } else {
        "8"
    };
    let s: &'static str = if d == 9 {
        "9"
    } else {
        s
    };
    proof {
        reveal_strlit("0123456789");
        reveal_strlit("0");
        reveal_strlit("1");
        reveal_strlit("2");
        reveal_strlit("3");
        reveal_strlit("4");
        reveal_strlit("5");
        reveal_strlit("6");
        reveal_strlit("7");
        reveal_strlit("8");
        reveal_strlit("9");
        assert(s@ =~= seq![digit_char(d as nat)]);
    }
    s
}

/// Appends the decimal rendering of `n`.
pub(crate) fn push_u64_dec(sink: &mut String, n: u64)
    ensures
        final(sink)@ == old(sink)@ + dec_nat(n as nat),
    decreases n,
{
    if n >= 10 {
        push_u64_dec(sink, n / 10);
    }
    let s: &'static str = digit_str(n % 10);
    sink.append(s);
    proof {
        if n < 10 {
            assert(sink@ =~= old(sink)@ + dec_nat(n as nat));
        } else {
            assert(dec_nat(n as nat) == dec_nat((n as nat) / 10) + seq![digit_char((n as nat) % 10)]);
            assert((n / 10) as nat == (n as nat) / 10);
            assert((n % 10) as nat == (n as nat) % 10);
            assert(sink@ =~= old(sink)@ + dec_nat(n as nat));
        }
    }
}

/// Appends the decimal rendering of `v`, with a leading `-` when negative.
pub(crate) fn push_i64_dec(sink: &mut String, v: i64)
    ensures
        final(sink)@ == old(sink)@ + dec_int(v as int),
{
    if v < 0 {
        sink.append("-");
        let m: i128 = -(v as i128);
        let mu: u64 = m as u64;
        proof {
            reveal_strlit("-");
            assert(0 < m <= i64::MAX as i128 + 1);
            assert(mu as int == m as int);
            assert("-"@ =~= seq!['-']);
        }
        push_u64_dec(sink, mu);
        proof {
            assert(mu as nat == (-(v as int)) as nat);
            assert(sink@ =~= old(sink)@ + (seq!['-'] + dec_nat((-(v as int)) as nat)));
        }
    } else {
        push_u64_dec(sink, v as u64);
    }
}

/// Appends the characters `v[from..to]`.
pub(crate) fn push_chars(sink: &mut String, v: &Vec<char>, from: usize, to: usize)
    requires
        from <= to <= v@.len(),
    ensures
        final(sink)@ == old(sink)@ + v@.subrange(from as int, to as int),
{
    proof {
        assert(old(sink)@ + v@.subrange(from as int, from as int) =~= old(sink)@);
    }
    let mut i: usize = from;
    while i < to
        invariant
            from <= i <= to <= v@.len(),
            sink@ == old(sink)@ + v@.subrange(from as int, i as int),
        decreases to - i,
    {
        push_char(sink, v[i]);
        proof {
            assert(v@.subrange(from as int, (i + 1) as int) =~= v@.subrange(from as int, i as int)
                + seq![v@[i as int]]);
            assert(sink@ =~= old(sink)@ + v@.subrange(from as int, (i + 1) as int));
        }
        i = i + 1;
    }
}

/// Appends the escaped form of `s`.
pub(crate) fn push_escaped(sink: &mut String, s: &str)
    ensures
        final(sink)@ == old(sink)@ + escape_text(s@),
{
    let n: usize = s.unicode_len();
    proof {
        assert(old(sink)@ + escape_text(s@.take(0)) =~= old(sink)@);
    }
    let mut i: usize = 0;
    while i < n
        invariant
            n == s@.len(),
            i <= n,
            sink@ == old(sink)@ + escape_text(s@.take(i as int)),
        decreases n - i,
    {
        let c: char = s.get_char(i);
        if c == '"' {
            sink.append("&quot;");
        } else if c == '\n' {
            sink.append("&lf;");
        } else if c == '\r' {
            sink.append("&cr;");
        } else {
            push_char(sink, c);
        }
        proof {
            assert(s@.take((i + 1) as int) =~= s@.take(i as int) + seq![s@[i as int]]);
            lemma_escape_append(s@.take(i as int), seq![s@[i as int]]);
            assert(seq![s@[i as int]].drop_first() =~= Seq::<char>::empty());
            assert(escape_text(seq![s@[i as int]]) == escape_char(s@[i as int]) + escape_text(
                Seq::<char>::empty(),
            ));
            assert(escape_text(seq![s@[i as int]]) =~= escape_char(s@[i as int]));
            assert(sink@ =~= old(sink)@ + escape_text(s@.take((i + 1) as int)));
        }
        i = i + 1;
    }
    proof {
        assert(s@.take(n as int) =~= s@);
    }
}

} // verus!
