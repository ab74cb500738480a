use vstd::prelude::*;

verus! {

/// Relies on std's `String::push`: the character is appended at the end.
pub assume_specification[ String::push ](s: &mut String, ch: char)
    ensures
        final(s)@ == old(s)@.push(ch),
;

/// A lowercase ASCII letter, an ASCII digit or an underscore.
pub open spec fn is_word_char(c: char) -> bool {
    ('a' <= c && c <= 'z') || ('0' <= c && c <= '9') || c == '_'
}

/// A character that a name may hold: a word character or a hyphen.
pub open spec fn is_name_char(c: char) -> bool {
    is_word_char(c) || c == '-'
}

/// The names that components, namespaces and endpoints may take: runs of lowercase letters,
/// digits and underscores, separated by runs of hyphens; no hyphen first or last, never empty.
pub open spec fn is_allowed_name(s: Seq<char>) -> bool {
    &&& s.len() > 0
    &&& forall|i: int| 0 <= i < s.len() ==> is_name_char(#[trigger] s[i])
    &&& s[0] != '-'
    &&& s[s.len() - 1] != '-'
}

/// The segments of an endpoint address: a lowercase letter, then lowercase letters, digits,
/// hyphens and underscores, ending with a lowercase letter or digit; at least two characters.
pub open spec fn is_address_segment(s: Seq<char>) -> bool {
    &&& s.len() >= 2
    &&& forall|i: int| 0 <= i < s.len() ==> is_name_char(#[trigger] s[i])
    &&& 'a' <= s[0] && s[0] <= 'z'
    &&& s[s.len() - 1] != '-' && s[s.len() - 1] != '_'
}

/// Relies on regex's `Regex::is_match` with the pattern `^[a-z0-9_]+(?:-+[a-z0-9_]+)*$`, which
/// accepts exactly the strings that `is_allowed_name` describes. The pattern is valid, so
/// `Regex::new` does not fail.
#[verifier::external_body]
fn matches_name_pattern(input: &str) -> (r: bool)
    ensures
        r == is_allowed_name(input@),
{
    regex::Regex::new(r"^[a-z0-9_]+(?:-+[a-z0-9_]+)*$").unwrap().is_match(input)
}

/// Relies on regex's `Regex::is_match` with the pattern `^[a-z][a-z0-9-_]*[a-z0-9]$`, which
/// accepts exactly the strings that `is_address_segment` describes. The pattern is valid, so
/// `Regex::new` does not fail.
#[verifier::external_body]
fn matches_segment_pattern(input: &str) -> (r: bool)
    ensures
        r == is_address_segment(input@),
{
    regex::Regex::new(r"^[a-z][a-z0-9-_]*[a-z0-9]$").unwrap().is_match(input)
}

/// A rejected name.
#[derive(Clone, Debug)]
pub struct ValidationError {
    /// Why the name was rejected.
    pub code: String,
}

fn invalid_characters() -> (r: ValidationError)
    ensures
        r.code@ == "invalid_characters"@,
{
    ValidationError { code: String::from_str("invalid_characters") }
}

/// Accept a component, namespace or endpoint name, or reject it with `invalid_characters`.
pub fn validate_allowed_chars(input: &str) -> (r: Result<(), ValidationError>)
    ensures
        r is Ok <==> is_allowed_name(input@),
        r is Err ==> r->Err_0.code@ == "invalid_characters"@,
{
    if matches_name_pattern(input) {
        Ok(())
    } else {
        Err(invalid_characters())
    }
}

/// Accept one segment of an endpoint address, or reject it with `invalid_characters`.
pub fn validate_address_segment(input: &str) -> (r: Result<(), ValidationError>)
    ensures
        r is Ok <==> is_address_segment(input@),
        r is Err ==> r->Err_0.code@ == "invalid_characters"@,
{
    if matches_segment_pattern(input) {
        Ok(())
    } else {
        Err(invalid_characters())
    }
}

/// Whether the two strings hold the same characters.
pub fn same_text(a: &str, b: &str) -> (r: bool)
    ensures
        r == (a@ == b@),
{
    let n = a.unicode_len();
    if n != b.unicode_len() {
        return false;
    }
    let mut i: usize = 0;
    while i < n
        invariant
            n == a@.len() == b@.len(),
            i <= n,
            forall|j: int| 0 <= j < i ==> a@[j] == b@[j],
        decreases n - i,
    {
        if a.get_char(i) != b.get_char(i) {
            return false;
        }
        i = i + 1;
    }
    proof {
        assert(a@ =~= b@);
    }
    true
}

/// The slug of one character: allowed name characters stay, ASCII capitals become lowercase,
/// every other character becomes an underscore.
pub open spec fn slug_char(c: char) -> char {
    if is_name_char(c) {
        c
    } else if 'A' <= c && c <= 'Z' {
        ((c as u32) + 32) as char
    } else {
        '_'
    }
}

/// The slug of a string, character by character.
pub open spec fn slug_of(s: Seq<char>) -> Seq<char> {
    s.map_values(|c: char| slug_char(c))
}

fn slug_char_exec(c: char) -> (r: char)
    ensures
        r == slug_char(c),
{
    if ('a' <= c && c <= 'z') || ('0' <= c && c <= '9') || c == '_' || c == '-' {
        c
    } else if 'A' <= c && c <= 'Z' {
        let lower: u8 = (c as u8) + 32;
        proof {
            assert((c as u32) + 32 == lower as u32);
        }
        lower as char
    } else {
        '_'
    }
}

/// A string made safe for subjects and service names.
pub fn slugify(s: &str) -> (r: String)
    ensures
        r@ == slug_of(s@),
{
    let n = s.unicode_len();
    let mut out = String::new();
    let mut i: usize = 0;
    while i < n
        invariant
            n == s@.len(),
            i <= n,
            out@ == slug_of(s@.take(i as int)),
        decreases n - i,
    {
        let c = s.get_char(i);
        out.push(slug_char_exec(c));
        i = i + 1;
        proof {
            assert(out@ =~= slug_of(s@.take(i as int)));
        }
    }
    proof {
        assert(s@.take(n as int) =~= s@);
    }
    out
}

/// The lowercase hexadecimal digit of `d`.
pub open spec fn hex_digit(d: nat) -> char {
    if d < 10 {
        (('0' as u32) + d) as char
    } else {
        (('a' as u32) + d - 10) as char
    }
}

/// `n` in lowercase hexadecimal, without leading zeros; zero is `0`.
pub open spec fn hex_of(n: nat) -> Seq<char>
    decreases n,
{
    if n < 16 {
        seq![hex_digit(n)]
    } else {
        hex_of(n / 16) + seq![hex_digit(n % 16)]
    }
}

/// The bits of `v` read as an unsigned number, as `{:x}` prints a signed integer.
pub open spec fn bits_of(v: i64) -> nat {
    if v >= 0 {
        v as nat
    } else {
        (v + 0x1_0000_0000_0000_0000) as nat
    }
}

fn hex_digit_exec(d: u64) -> (c: char)
    requires
        d < 16,
    ensures
        c == hex_digit(d as nat),
{
    if d < 10 {
        let b: u8 = 48u8 + d as u8;
        proof {
            assert(('0' as u32) + d == b as u32);
        }
        b as char
    } else {
        let b: u8 = 87u8 + d as u8;
        proof {
            assert(('a' as u32) + d - 10 == b as u32);
        }
        b as char
    }
}

/// `n` in lowercase hexadecimal, without leading zeros.
fn hex_string(n: u64) -> (r: String)
    ensures
        r@ == hex_of(n as nat),
    decreases n,
{
    if n < 16 {
        let mut s = String::new();
        s.push(hex_digit_exec(n));
        proof {
            assert(s@ =~= seq![hex_digit(n as nat)]);
        }
        s
    } else {
        let mut s = hex_string(n / 16);
        s.push(hex_digit_exec(n % 16));
        s
    }
}

/// The two's complement bits of `v` in lowercase hexadecimal, without leading zeros, as
/// instance ids appear in paths and subjects.
pub(crate) fn lower_hex(v: i64) -> (r: String)
    ensures
        r@ == hex_of(bits_of(v)),
{
    let bits: u64 = if v >= 0 {
        v as u64
    } else {
        ((v + 1 + i64::MAX) as u64) + 0x8000_0000_0000_0000u64
    };
    hex_string(bits)
}

} // verus!

verus! {

/// The value of a hexadecimal digit, either case; -1 for any other character.
pub open spec fn hex_digit_value(c: char) -> int {
    if '0' <= c && c <= '9' {
        c as int - '0' as int
    } else if 'a' <= c && c <= 'f' {
        c as int - 'a' as int + 10
    } else if 'A' <= c && c <= 'F' {
        c as int - 'A' as int + 10
    } else {
        -1
    }
}

/// The number that the hexadecimal digits `s` spell.
pub open spec fn hex_value(s: Seq<char>) -> int
    decreases s.len(),
{
    if s.len() == 0 {
        0
    } else {
        hex_value(s.drop_last()) * 16 + hex_digit_value(s.last())
    }
}

/// The text after the last hyphen of `s`; all of `s` when it has no hyphen.
pub open spec fn after_last_hyphen(s: Seq<char>) -> Seq<char>
    decreases s.len(),
{
    if s.len() == 0 {
        s
    } else if s.last() == '-' {
        Seq::empty()
    } else {
        after_last_hyphen(s.drop_last()).push(s.last())
    }
}

/// `s` is a non-empty run of hexadecimal digits.
pub open spec fn all_hex_digits(s: Seq<char>) -> bool {
    s.len() > 0 && forall|i: int| 0 <= i < s.len() ==> hex_digit_value(#[trigger] s[i]) >= 0
}

proof fn lemma_hex_value_grows(s: Seq<char>, k: int)
    requires
        0 <= k <= s.len(),
        forall|i: int| 0 <= i < s.len() ==> hex_digit_value(#[trigger] s[i]) >= 0,
    ensures
        hex_value(s) >= hex_value(s.take(k)) >= 0,
    decreases s.len(),
{
    if s.len() > 0 {
        let t = s.drop_last();
        assert(forall|i: int| 0 <= i < t.len() ==> hex_digit_value(#[trigger] t[i]) >= 0) by {
            assert(forall|i: int| 0 <= i < t.len() ==> t[i] == s[i]);
        }
        if k == s.len() {
            assert(s.take(k) =~= s);
            lemma_hex_value_grows(t, t.len() as int);
            assert(t.take(t.len() as int) =~= t);
        } else {
            lemma_hex_value_grows(t, k);
            assert(t.take(k) =~= s.take(k));
        }
    }
}

fn hex_digit_value_exec(c: char) -> (r: i64)
    ensures
        r == hex_digit_value(c),
{
    if '0' <= c && c <= '9' {
        (c as u32 - '0' as u32) as i64
    } else if 'a' <= c && c <= 'f' {
        (c as u32 - 'a' as u32 + 10) as i64
    } else if 'A' <= c && c <= 'F' {
        (c as u32 - 'A' as u32 + 10) as i64
    } else {
        -1
    }
}

/// The worker id at the end of an instance subject: the hexadecimal text after its last
/// hyphen, as `name_with_id` writes it. `None` when that text is not a hexadecimal number of
/// at most `i64::MAX`.
pub fn worker_id_from_subject(subject: &str) -> (r: Option<i64>)
    ensures
        r is Some <==> all_hex_digits(after_last_hyphen(subject@)) && hex_value(
            after_last_hyphen(subject@),
        ) <= i64::MAX,
        r is Some ==> r->Some_0 == hex_value(after_last_hyphen(subject@)),
{
    let n = subject.unicode_len();
    let mut start: usize = n;
    proof {
        assert(subject@.take(n as int) =~= subject@);
    }
    while start > 0 && subject.get_char(start - 1) != '-'
        invariant
            n == subject@.len(),
            start <= n,
            after_last_hyphen(subject@) == after_last_hyphen(subject@.take(start as int)) + subject@.subrange(
                start as int,
                n as int,
            ),
        decreases start,
    {
        proof {
            let t = subject@.take(start as int);
            assert(t.drop_last() =~= subject@.take(start - 1));
            assert(after_last_hyphen(t) == after_last_hyphen(t.drop_last()).push(t.last()));
            assert(subject@.subrange(start - 1, n as int) =~= seq![t.last()] + subject@.subrange(
                start as int,
                n as int,
            ));
        }
        start = start - 1;
    }
    let ghost suffix = subject@.subrange(start as int, n as int);
    proof {
        let t = subject@.take(start as int);
        assert(after_last_hyphen(t).len() == 0);
        assert(after_last_hyphen(subject@) =~= suffix);
    }
    if start == n {
        proof {
            assert(suffix.len() == 0);
            assert(!all_hex_digits(after_last_hyphen(subject@)));
        }
        return None;
    }
    let mut acc: i64 = 0;
    let mut i: usize = start;
    while i < n
        invariant
            n == subject@.len(),
            start < n,
            start <= i <= n,
            suffix == subject@.subrange(start as int, n as int),
            after_last_hyphen(subject@) == suffix,
            forall|j: int| start <= j < i ==> hex_digit_value(#[trigger] subject@[j]) >= 0,
            acc == hex_value(subject@.subrange(start as int, i as int)),
            0 <= acc,
        decreases n - i,
    {
        let c = subject.get_char(i);
        let d = hex_digit_value_exec(c);
        proof {
            let p = subject@.subrange(start as int, i + 1);
            assert(p.drop_last() =~= subject@.subrange(start as int, i as int));
        }
        if d < 0 {
            proof {
                assert(suffix[i - start] == subject@[i as int]);
                assert(hex_digit_value(suffix[i - start]) < 0);
                assert(!all_hex_digits(suffix));
            }
            return None;
        }
        if acc > (i64::MAX - d) / 16 {
            proof {
                assert(forall|j: int| 0 <= j < i + 1 - start ==> #[trigger] suffix[j] == subject@[start + j]);
                let p = subject@.subrange(start as int, i + 1);
                assert(hex_value(p) == acc * 16 + d);
                assert(acc * 16 + d > i64::MAX) by (nonlinear_arith)
                    requires
                        acc > (i64::MAX - d) / 16,
                        0 <= d < 16,
                ;
                let all_ok = forall|j: int| 0 <= j < suffix.len() ==> hex_digit_value(#[trigger] suffix[j]) >= 0;
                if all_ok {
                    lemma_hex_value_grows(suffix, i + 1 - start);
                    assert(suffix.take(i + 1 - start) =~= p);
                }
            }
            return None;
        }
        acc = acc * 16 + d;
        i = i + 1;
    }
    proof {
        assert(subject@.subrange(start as int, n as int) =~= suffix);
        assert(forall|j: int| 0 <= j < suffix.len() ==> #[trigger] suffix[j] == subject@[start + j]);
    }
    Some(acc)
}

} // verus!

verus! {

proof fn lemma_hex_digit_round_trip(d: nat)
    requires
        d < 16,
    ensures
        hex_digit_value(hex_digit(d)) == d,
        hex_digit(d) != '-',
{
    if d < 10 {
        assert((('0' as u32) + d) as char as int == '0' as int + d);
    } else {
        assert((('a' as u32) + d - 10) as char as int == 'a' as int + d - 10);
    }
}

proof fn lemma_hex_of_round_trip(n: nat)
    ensures
        all_hex_digits(hex_of(n)),
        hex_value(hex_of(n)) == n,
        forall|i: int| 0 <= i < hex_of(n).len() ==> #[trigger] hex_of(n)[i] != '-',
    decreases n,
{
    if n < 16 {
        lemma_hex_digit_round_trip(n);
        assert(hex_of(n).drop_last() =~= Seq::<char>::empty());
        assert(hex_value(Seq::<char>::empty()) == 0);
        assert(hex_value(hex_of(n)) == hex_value(hex_of(n).drop_last()) * 16 + hex_digit_value(
            hex_of(n).last(),
        ));
    } else {
        lemma_hex_of_round_trip(n / 16);
        lemma_hex_digit_round_trip(n % 16);
        let h = hex_of(n);
        assert(h.drop_last() =~= hex_of(n / 16));
        assert(h.last() == hex_digit(n % 16));
        assert(n == (n / 16) * 16 + n % 16) by (nonlinear_arith);
        assert(hex_value(h) == hex_value(h.drop_last()) * 16 + hex_digit_value(h.last()));
        assert forall|i: int| 0 <= i < h.len() implies hex_digit_value(#[trigger] h[i]) >= 0 && h[i]
            != '-' by {
            if i < h.len() - 1 {
                assert(h[i] == hex_of(n / 16)[i]);
            }
        }
    }
}

proof fn lemma_after_last_hyphen_suffix(prefix: Seq<char>, tail: Seq<char>)
    requires
        forall|i: int| 0 <= i < tail.len() ==> #[trigger] tail[i] != '-',
    ensures
        after_last_hyphen(prefix + seq!['-'] + tail) == tail,
    decreases tail.len(),
{
    let s = prefix + seq!['-'] + tail;
    if tail.len() == 0 {
        assert(s.last() == '-');
    } else {
        let t = tail.drop_last();
        assert(s.drop_last() =~= prefix + seq!['-'] + t);
        lemma_after_last_hyphen_suffix(prefix, t);
        assert(s.last() == tail.last());
        assert(tail =~= t.push(tail.last()));
    }
}

/// A non-negative id written after a hyphen, as instance names and subjects end, reads back
/// as itself.
pub proof fn lemma_worker_id_round_trip(prefix: Seq<char>, id: i64)
    requires
        id >= 0,
    ensures
        all_hex_digits(after_last_hyphen(prefix + seq!['-'] + hex_of(bits_of(id)))),
        hex_value(after_last_hyphen(prefix + seq!['-'] + hex_of(bits_of(id)))) == id,
{
    lemma_hex_of_round_trip(bits_of(id));
    lemma_after_last_hyphen_suffix(prefix, hex_of(bits_of(id)));
}

} // verus!
