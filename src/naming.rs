//! Names derived from schema identifiers.
use vstd::prelude::*;
use vstd::string::StrSliceExecFns;

verus! {

/// What `char::to_uppercase` yields for `c`.
pub uninterp spec fn upper_of(c: char) -> Seq<char>;

/// Relies on `char::to_uppercase`: its characters depend on `c` alone.
#[verifier::external_body]
fn uppercase(c: char) -> (r: Vec<char>)
    ensures
        r@ == upper_of(c),
{
    c.to_uppercase().collect()
}

/// Relies on `String`'s `FromIterator<char>`: the string holds the characters in order.
#[verifier::external_body]
fn string_of_chars(v: Vec<char>) -> (r: String)
    ensures
        r@ == v@,
{
    v.into_iter().collect()
}

/// `s` in CamelCase: underscores are dropped and the first character of each word is
/// upper-cased; `at_start` says whether a word begins at `s[0]`.
pub open spec fn camel(s: Seq<char>, at_start: bool) -> Seq<char>
    decreases s.len(),
{
    if s.len() == 0 {
        Seq::empty()
    } else if s[0] == '_' {
        camel(s.drop_first(), true)
    } else if at_start {
        upper_of(s[0]) + camel(s.drop_first(), false)
    } else {
        seq![s[0]] + camel(s.drop_first(), false)
    }
}

/// Converts snake_case to CamelCase ("create_order" becomes "CreateOrder").
pub fn to_camel_case(s: &str) -> (r: String)
    ensures
        r@ == camel(s@, true),
{
    let n = s.unicode_len();
    let mut out: Vec<char> = Vec::new();
    let mut at_start = true;
    let mut i: usize = 0;
    assert(s@.subrange(0, n as int) =~= s@);
    assert(out@ + camel(s@, true) =~= camel(s@, true));
    while i < n
        invariant
            n == s@.len(),
            i <= n,
            out@ + camel(s@.subrange(i as int, n as int), at_start) == camel(s@, true),
        decreases n - i,
    {
        let c = s.get_char(i);
        let ghost rest = s@.subrange(i as int, n as int);
        assert(rest.drop_first() =~= s@.subrange(i + 1, n as int));
        if c == '_' {
            at_start = true;
        } else if at_start {
            let mut up = uppercase(c);
            let ghost before = out@;
            out.append(&mut up);
            assert(before + (upper_of(c) + camel(rest.drop_first(), false)) =~= out@ + camel(rest.drop_first(), false));
            at_start = false;
        } else {
            let ghost before = out@;
            out.push(c);
            assert(before + (seq![c] + camel(rest.drop_first(), false)) =~= out@ + camel(rest.drop_first(), false));
        }
        i = i + 1;
    }
    assert(s@.subrange(n as int, n as int) =~= Seq::<char>::empty());
    assert(out@ + Seq::<char>::empty() =~= out@);
    string_of_chars(out)
}

} // verus!
