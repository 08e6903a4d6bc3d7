use vstd::prelude::*;

verus! {

/// The character of a decimal digit.
pub open spec fn digit_char(d: nat) -> char {
    if d == 0 { '0' }
    else if d == 1 { '1' }
    else if d == 2 { '2' }
    else if d == 3 { '3' }
    else if d == 4 { '4' }
    else if d == 5 { '5' }
    else if d == 6 { '6' }
    else if d == 7 { '7' }
    else if d == 8 { '8' }
    else { '9' }
}

/// The decimal notation of a natural number, without leading zeros.
pub open spec fn decimal(n: nat) -> Seq<char>
    decreases n,
{
    if n < 10 {
        seq![digit_char(n)]
    } else {
        decimal(n / 10).push(digit_char(n % 10))
    }
}

fn digit_string(d: usize) -> (s: String)
    requires
        d < 10,
    ensures
        s@ == seq![digit_char(d as nat)],
{
    if d == 0 {
        proof { reveal_strlit("0"); }
        String::from_str("0")
    } else if d == 1 {
        proof { reveal_strlit("1"); }
        String::from_str("1")
    } else if d == 2 {
        proof { reveal_strlit("2"); }
        String::from_str("2")
    } else if d == 3 {
        proof { reveal_strlit("3"); }
        String::from_str("3")
    } else if d == 4 {
        proof { reveal_strlit("4"); }
        String::from_str("4")
    } else if d == 5 {
        proof { reveal_strlit("5"); }
        String::from_str("5")
    } else if d == 6 {
        proof { reveal_strlit("6"); }
        String::from_str("6")
    } else if d == 7 {
        proof { reveal_strlit("7"); }
        String::from_str("7")
    } else if d == 8 {
        proof { reveal_strlit("8"); }
        String::from_str("8")
    } else {
        proof { reveal_strlit("9"); }
        String::from_str("9")
    }
}

/// Writes a number in decimal notation.
pub fn usize_to_string(n: usize) -> (s: String)
    ensures
        s@ == decimal(n as nat),
    decreases n,
{
    if n < 10 {
        digit_string(n)
    } else {
        let mut s = usize_to_string(n / 10);
        let d = digit_string(n % 10);
        s.append(d.as_str());
        s
    }
}


/// A run of `n` spaces.
pub open spec fn spaces(n: nat) -> Seq<char> {
    Seq::new(n, |i: int| ' ')
}

/// Writes a run of `n` spaces.
pub fn space_string(n: usize) -> (s: String)
    ensures
        s@ == spaces(n as nat),
{
    let mut s = String::new();
    let mut i: usize = 0;
    while i < n
        invariant
            i <= n,
            s@ =~= spaces(i as nat),
        decreases n - i,
    {
        proof { reveal_strlit(" "); }
        s.append(" ");
        i = i + 1;
    }
    s
}

/// The index at which the line that holds index `i` of `s` ends: the first
/// newline at or after `i`, or the length of `s` when there is none.
pub open spec fn line_end(s: Seq<char>, i: nat) -> nat
    decreases s.len() - i,
{
    if i >= s.len() || s[i as int] == '\n' {
        i
    } else {
        line_end(s, i + 1)
    }
}

/// A line without the carriage return of a `\r\n` ending.
pub open spec fn strip_cr(l: Seq<char>) -> Seq<char> {
    if l.len() > 0 && l.last() == '\r' {
        l.drop_last()
    } else {
        l
    }
}

/// The lines of a text: the pieces between `\n` or `\r\n` endings, where the
/// last line needs no ending and an empty text has no lines.
pub open spec fn lines(s: Seq<char>) -> Seq<Seq<char>>
    decreases s.len(),
{
    if s.len() == 0 {
        seq![]
    } else {
        let k = line_end(s, 0);
        if k >= s.len() {
            seq![s]
        } else {
            proof { lemma_line_end_bounds(s, 0); }
            seq![strip_cr(s.take(k as int))] + lines(s.skip(k + 1 as int))
        }
    }
}

/// A line ends at or after its start and no later than the text.
pub proof fn lemma_line_end_bounds(s: Seq<char>, i: nat)
    ensures
        i <= line_end(s, i),
        i <= s.len() ==> line_end(s, i) <= s.len(),
        line_end(s, i) < s.len() ==> s[line_end(s, i) as int] == '\n',
    decreases s.len() - i,
{
    if !(i >= s.len() || s[i as int] == '\n') {
        lemma_line_end_bounds(s, i + 1);
    }
}

/// A run without newlines that stops at a newline or at the end is a line.
pub proof fn lemma_line_end_at(s: Seq<char>, i: nat, e: nat)
    requires
        i <= e <= s.len(),
        forall|k: int| i <= k < e ==> s[k] != '\n',
        e == s.len() || s[e as int] == '\n',
    ensures
        line_end(s, i) == e,
    decreases e - i,
{
    if i < e {
        lemma_line_end_at(s, i + 1, e);
    }
}

/// Dropping a prefix shifts line ends by its length.
pub proof fn lemma_line_end_skip(s: Seq<char>, a: nat, i: nat)
    requires
        a <= s.len(),
    ensures
        line_end(s.skip(a as int), i) + a == line_end(s, a + i),
    decreases s.len() - (a + i),
{
    if !(a + i >= s.len() || s[(a + i) as int] == '\n') {
        lemma_line_end_skip(s, a, i + 1);
    }
}

/// The line at index `n` of a text, without its ending.
pub fn nth_line(input: &str, n: usize) -> (r: Option<String>)
    ensures
        n < lines(input@).len() ==> (r matches Some(l) && l@ == lines(input@)[n as int]),
        n >= lines(input@).len() ==> r is None,
{
    let ghost s = input@;
    let len = input.unicode_len();
    let mut start: usize = 0;
    let mut j: usize = 0;
    assert(s.skip(0) =~= s);
    loop
        invariant
            s == input@,
            len == s.len(),
            start <= len,
            j <= n,
            j <= lines(s).len(),
            lines(s.skip(start as int)) =~= lines(s).skip(j as int),
        decreases len - start,
    {
        if start == len {
            assert(s.skip(start as int).len() == 0);
            assert(lines(s).skip(j as int).len() == 0);
            return None;
        }
        let mut end = start;
        while end < len && input.get_char(end) != '\n'
            invariant
                s == input@,
                len == s.len(),
                start <= end <= len,
                forall|k: int| start <= k < end ==> s[k] != '\n',
            decreases len - end,
        {
            end = end + 1;
        }
        let ghost t = s.skip(start as int);
        proof {
            lemma_line_end_at(s, start as nat, end as nat);
            lemma_line_end_skip(s, start as nat, 0);
            assert(line_end(t, 0) == end - start);
            assert(t.len() > 0);
        }
        if end == len {
            assert(lines(t) == seq![t]);
            if j == n {
                let piece = input.substring_char(start, end);
                proof {
                    assert(piece@ =~= t);
                    assert(lines(s).skip(j as int)[0] == lines(s)[j as int]);
                    assert(lines(t)[0] == t);
                    assert(lines(s)[j as int] == t);
                }
                return Some(String::from_str(piece));
            }
            assert(lines(s).skip(j as int).len() == 1);
            return None;
        }
        let ghost rest = s.skip(end + 1 as int);
        proof {
            assert(t.skip(end - start + 1 as int) =~= rest);
            assert(t.take(end - start) =~= s.subrange(start as int, end as int));
            assert(lines(t) =~= seq![strip_cr(s.subrange(start as int, end as int))] + lines(rest));
            assert(lines(s)[j as int] == lines(t)[0]);
        }
        if j == n {
            let mut stop = end;
            if end > start && input.get_char(end - 1) == '\r' {
                stop = end - 1;
            }
            let piece = input.substring_char(start, stop);
            assert(piece@ =~= strip_cr(s.subrange(start as int, end as int)));
            return Some(String::from_str(piece));
        }
        proof {
            let x = seq![strip_cr(s.subrange(start as int, end as int))];
            assert((x + lines(rest)).skip(1) =~= lines(rest));
            assert(lines(s).skip(j as int).skip(1) =~= lines(s).skip(j + 1 as int));
        }
        start = end + 1;
        j = j + 1;
    }
}

} // verus!
