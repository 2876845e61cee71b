//! Small verified helpers for working with the characters of strings.
use vstd::prelude::*;
use vstd::string::*;

verus! {

/// Copy the characters of a string slice into a vector.
pub fn chars_of(s: &str) -> (res: Vec<char>)
    ensures
        res@ == s@,
{
    let n = s.unicode_len();
    let mut res: Vec<char> = Vec::new();
    let mut i: usize = 0;
    while i < n
        invariant
            n == s@.len(),
            i <= n,
            res@ == s@.subrange(0, i as int),
        decreases n - i,
    {
        res.push(s.get_char(i));
        i = i + 1;
    }
    res
}

/// Compare two character sequences for equality.
pub fn chars_equal(a: &[char], b: &[char]) -> (res: bool)
    ensures
        res == (a@ == b@),
{
    if a.len() != b.len() {
        return false;
    }
    let mut i: usize = 0;
    while i < a.len()
        invariant
            a@.len() == b@.len(),
            i <= a@.len(),
            forall|j: int| 0 <= j < i ==> a@[j] == b@[j],
        decreases a@.len() - i,
    {
        if a[i] != b[i] {
            return false;
        }
        i = i + 1;
    }
    assert(a@ =~= b@);
    true
}

/// Compare two string slices by their characters.
pub fn str_equals(a: &str, b: &str) -> (res: bool)
    ensures
        res == (a@ == b@),
{
    let ca = chars_of(a);
    let cb = chars_of(b);
    chars_equal(ca.as_slice(), cb.as_slice())
}

/// The character of a decimal digit.
pub open spec fn digit_char(d: nat) -> char {
    if d == 0 {
        '0'
    } else if d == 1 {
        '1'
    } else if d == 2 {
        '2'
    } else if d == 3 {
        '3'
    } else if d == 4 {
        '4'
    } else if d == 5 {
        '5'
    } else if d == 6 {
        '6'
    } else if d == 7 {
        '7'
    } else if d == 8 {
        '8'
    } else {
        '9'
    }
}

/// The shortest decimal notation of a natural number, as `Display` writes it.
pub open spec fn decimal(n: nat) -> Seq<char>
    decreases n,
{
    if n < 10 {
        seq![digit_char(n)]
    } else {
        decimal(n / 10).push(digit_char(n % 10))
    }
}

/// Append the decimal digit `d` to `s`.
fn push_digit(s: &mut String, d: usize)
    requires
        d < 10,
    ensures
        final(s)@ == old(s)@.push(digit_char(d as nat)),
{
    let lit: &str = if d == 0 {
        "0"
    } else if d == 1 {
        "1"
    } else if d == 2 {
        "2"
    } else if d == 3 {
        "3"
    } else if d == 4 {
        "4"
    } else if d == 5 {
        "5"
    } else if d == 6 {
        "6"
    } else if d == 7 {
        "7"
    } else if d == 8 {
        "8"
    } else {
        "9"
    };
    proof {
        reveal_strlit("0");
        reveal_strlit("1");
        reveal_strlit("2");
        reveal_strlit("3");
        reveal_strlit("4");
        reveal_strlit("5");
        reveal_strlit("6");
        reveal_strlit("7");
        reveal_strlit("8");
        reveal_strlit("9");
    }
    s.append(lit);
    assert(lit@ =~= seq![digit_char(d as nat)]);
}

/// Append the decimal notation of `n` to `s`.
pub fn append_decimal(s: &mut String, n: usize)
    ensures
        final(s)@ == old(s)@ + decimal(n as nat),
    decreases n,
{
    if n < 10 {
        push_digit(s, n);
        assert(decimal(n as nat) =~= seq![digit_char(n as nat)]);
    } else {
        append_decimal(s, n / 10);
        push_digit(s, n % 10);
        assert(decimal(n as nat) == decimal((n / 10) as nat).push(digit_char((n % 10) as nat)));
    }
}


/// The fields of a text separated by `sep`, as `str::split` gives them: an
/// empty text has one empty field, and each separator starts a new field.
pub open spec fn split_on(s: Seq<char>, sep: char) -> Seq<Seq<char>>
    decreases s.len(),
{
    if s.len() == 0 {
        seq![Seq::<char>::empty()]
    } else {
        let fields = split_on(s.drop_last(), sep);
        if s.last() == sep {
            fields.push(Seq::<char>::empty())
        } else {
            fields.update(fields.len() - 1, fields.last().push(s.last()))
        }
    }
}

/// There is always at least one field.
proof fn lemma_split_on_nonempty(s: Seq<char>, sep: char)
    ensures
        split_on(s, sep).len() >= 1,
    decreases s.len(),
{
    if s.len() > 0 {
        lemma_split_on_nonempty(s.drop_last(), sep);
    }
}

/// Fields put back together with `sep` between each two of them.
pub open spec fn joined(fields: Seq<Seq<char>>, sep: char) -> Seq<char>
    decreases fields.len(),
{
    if fields.len() <= 1 {
        if fields.len() == 1 {
            fields[0]
        } else {
            Seq::<char>::empty()
        }
    } else {
        joined(fields.drop_last(), sep).push(sep) + fields.last()
    }
}

/// Splitting loses nothing: there is at least one field, no field holds the
/// separator, and joining the fields with the separator gives the text back.
pub proof fn split_fields_join_back(s: Seq<char>, sep: char)
    ensures
        split_on(s, sep).len() >= 1,
        joined(split_on(s, sep), sep) == s,
        forall|k: int| 0 <= k < split_on(s, sep).len() ==> !(#[trigger] split_on(s, sep)[k]).contains(sep),
    decreases s.len(),
{
    lemma_split_on_nonempty(s, sep);
    if s.len() == 0 {
        assert(joined(split_on(s, sep), sep) =~= s);
        assert forall|k: int| 0 <= k < split_on(s, sep).len() implies !(#[trigger] split_on(s, sep)[k]).contains(sep) by {
            assert(split_on(s, sep)[k] =~= Seq::<char>::empty());
        }
    } else {
        let t = s.drop_last();
        let c = s.last();
        split_fields_join_back(t, sep);
        let ft = split_on(t, sep);
        let f = split_on(s, sep);
        assert(s =~= t.push(c));
        if c == sep {
            assert(f.drop_last() =~= ft);
            assert(joined(f, sep) =~= s);
            assert forall|k: int| 0 <= k < f.len() implies !(#[trigger] f[k]).contains(sep) by {
                if k < ft.len() {
                    assert(f[k] == ft[k]);
                } else {
                    assert(f[k] =~= Seq::<char>::empty());
                }
            }
        } else {
            let last = ft.last();
            assert(f[f.len() - 1] == last.push(c));
            if ft.len() == 1 {
                assert(joined(f, sep) =~= s);
            } else {
                assert(f.drop_last() =~= ft.drop_last());
                assert(joined(ft, sep) == joined(ft.drop_last(), sep).push(sep) + last);
                assert(joined(f, sep) =~= s);
            }
            assert forall|k: int| 0 <= k < f.len() implies !(#[trigger] f[k]).contains(sep) by {
                if k < f.len() - 1 {
                    assert(f[k] == ft[k]);
                } else {
                    assert(!ft[ft.len() - 1].contains(sep));
                    if f[k].contains(sep) {
                        let i = choose|i: int| 0 <= i < f[k].len() && f[k][i] == sep;
                        if i < last.len() {
                            assert(last[i] == sep);
                        }
                    }
                }
            }
        }
    }
}

/// Split a line into the texts between the separators `sep`.
pub fn split_fields(line: &str, sep: char) -> (fields: Vec<String>)
    ensures
        fields@.map_values(|f: String| f@) == split_on(line@, sep),
{
    let n = line.unicode_len();
    let mut fields: Vec<String> = Vec::new();
    let mut start: usize = 0;
    let mut i: usize = 0;
    assert(line@.take(0) =~= Seq::<char>::empty());
    assert(line@.subrange(0, 0) =~= Seq::<char>::empty());
    while i < n
        invariant
            n == line@.len(),
            start <= i <= n,
            fields@.map_values(|f: String| f@).push(line@.subrange(start as int, i as int)) == split_on(
                line@.take(i as int),
                sep,
            ),
        decreases n - i,
    {
        let c = line.get_char(i);
        let ghost prev = fields@.map_values(|f: String| f@);
        proof {
            assert(line@.take(i + 1).drop_last() =~= line@.take(i as int));
            assert(line@.take(i + 1).last() == c);
            lemma_split_on_nonempty(line@.take(i as int), sep);
        }
        if c == sep {
            let field = line.substring_char(start, i);
            fields.push(String::from_str(field));
            start = i + 1;
            proof {
                assert(fields@.map_values(|f: String| f@) =~= split_on(line@.take(i as int), sep));
                assert(line@.subrange(start as int, (i + 1) as int) =~= Seq::<char>::empty());
            }
        } else {
            proof {
                assert(line@.subrange(start as int, (i + 1) as int) =~= line@.subrange(
                    start as int,
                    i as int,
                ).push(c));
                assert(prev.push(line@.subrange(start as int, (i + 1) as int)) =~= prev.push(
                    line@.subrange(start as int, i as int),
                ).update(prev.len() as int, prev.push(line@.subrange(start as int, i as int)).last().push(c)));
            }
        }
        i = i + 1;
    }
    let last = line.substring_char(start, n);
    fields.push(String::from_str(last));
    proof {
        assert(line@.take(n as int) =~= line@);
        assert(fields@.map_values(|f: String| f@) =~= split_on(line@, sep));
    }
    fields
}

} // verus!
