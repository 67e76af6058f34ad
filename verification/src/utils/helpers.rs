//! Address validation and the compact address form used in alerts.

use vstd::prelude::*;
use vstd::string::*;
use vstd::utf8::*;
use crate::text::{chars_of, string_of_range};

verus! {

// ---------------------------------------------------------------------
// Whitespace trimming
// ---------------------------------------------------------------------

/// Unicode `White_Space`: the characters that `str::trim` removes.
pub open spec fn is_white_space(c: char) -> bool {
    let u = c as u32;
    ||| 0x09 <= u <= 0x0D
    ||| u == 0x20
    ||| u == 0x85
    ||| u == 0xA0
    ||| u == 0x1680
    ||| 0x2000 <= u <= 0x200A
    ||| u == 0x2028
    ||| u == 0x2029
    ||| u == 0x202F
    ||| u == 0x205F
    ||| u == 0x3000
}

/// `s` without its leading white space.
pub open spec fn trim_start(s: Seq<char>) -> Seq<char>
    decreases s.len(),
{
    if s.len() > 0 && is_white_space(s[0]) {
        trim_start(s.drop_first())
    } else {
        s
    }
}

/// `s` without its trailing white space.
pub open spec fn trim_end(s: Seq<char>) -> Seq<char>
    decreases s.len(),
{
    if s.len() > 0 && is_white_space(s.last()) {
        trim_end(s.drop_last())
    } else {
        s
    }
}

/// `s` without white space at either end.
pub open spec fn trimmed(s: Seq<char>) -> Seq<char> {
    trim_end(trim_start(s))
}

fn white_space(c: char) -> (b: bool)
    ensures
        b == is_white_space(c),
{
    let u = c as u32;
    (0x09 <= u && u <= 0x0D) || u == 0x20 || u == 0x85 || u == 0xA0 || u == 0x1680 || (0x2000 <= u
        && u <= 0x200A) || u == 0x2028 || u == 0x2029 || u == 0x202F || u == 0x205F || u == 0x3000
}

/// Removes white space at both ends of `s`.
pub fn trim(s: &str) -> (r: String)
    ensures
        r@ == trimmed(s@),
{
    let v = chars_of(s);
    let n = v.len();
    let mut a: usize = 0;
    assert(v@.subrange(0, n as int) =~= v@);
    while a < n && white_space(v[a])
        invariant
            n == v@.len(),
            a <= n,
            trim_start(v@) == trim_start(v@.subrange(a as int, n as int)),
        decreases n - a,
    {
        assert(v@.subrange(a as int, n as int).drop_first() =~= v@.subrange(a + 1, n as int));
        a = a + 1;
    }
    assert(trim_start(v@) == v@.subrange(a as int, n as int));
    let mut b: usize = n;
    while b > a && white_space(v[b - 1])
        invariant
            n == v@.len(),
            a <= b <= n,
            trim_end(v@.subrange(a as int, n as int)) == trim_end(v@.subrange(a as int, b as int)),
        decreases b - a,
    {
        assert(v@.subrange(a as int, b as int).drop_last() =~= v@.subrange(a as int, b - 1));
        b = b - 1;
    }
    assert(trim_end(v@.subrange(a as int, b as int)) == v@.subrange(a as int, b as int));
    string_of_range(&v, a, b)
}

// ---------------------------------------------------------------------
// Lower case
// ---------------------------------------------------------------------

/// What `str::to_lowercase` returns for the characters `s`: the Unicode
/// lower-case mapping of the text (one character may become several, and a
/// capital sigma depends on its neighbours).
pub uninterp spec fn unicode_lowercase(s: Seq<char>) -> Seq<char>;

/// `c` in lower case when it is an ASCII capital letter, else `c` itself.
pub open spec fn ascii_lower_char(c: char) -> char {
    if 'A' <= c <= 'Z' {
        ((c as u32) + 32) as char
    } else {
        c
    }
}

/// `c` in upper case when it is an ASCII small letter, else `c` itself.
pub open spec fn ascii_upper_char(c: char) -> char {
    if 'a' <= c <= 'z' {
        ((c as u32) - 32) as char
    } else {
        c
    }
}

/// `s` with its ASCII capital letters put in lower case (`to_ascii_lowercase`).
pub open spec fn ascii_lower(s: Seq<char>) -> Seq<char> {
    s.map_values(|c: char| ascii_lower_char(c))
}

/// `s` with its ASCII small letters put in upper case (`to_ascii_uppercase`).
pub open spec fn ascii_upper(s: Seq<char>) -> Seq<char> {
    s.map_values(|c: char| ascii_upper_char(c))
}

/// `str::to_lowercase` from std. Its result is named, not described: the
/// Unicode case tables are not restated here. Of ASCII text it states what
/// the Unicode mapping gives there: each capital letter `A`..`Z` becomes its
/// small letter and every other character stays.
#[verifier::external_body]
fn to_lowercase(s: &str) -> (r: String)
    ensures
        r@ == unicode_lowercase(s@),
        is_ascii_chars(s@) ==> r@ == ascii_lower(s@),
{
    s.to_lowercase()
}

// ---------------------------------------------------------------------
// Wallet validation
// ---------------------------------------------------------------------

/// The network prefix of a mainnet Kaspa address.
pub open spec fn kaspa_prefix() -> Seq<char> {
    seq!['k', 'a', 's', 'p', 'a', ':']
}

/// The Bech32 alphabet that Kaspa payloads are written in (it leaves out
/// `1`, `b`, `i` and `o`).
pub open spec fn bech32_alphabet() -> Seq<char> {
    "qpzry9x8gf2tvdw0s3jn54khce6mua7l"@
}

/// The address that a cleaned input stands for: the input itself when it
/// already carries the `kaspa:` prefix, else the input behind that prefix.
pub open spec fn wallet_target(cleaned: Seq<char>) -> Seq<char> {
    if kaspa_prefix().is_prefix_of(cleaned) {
        cleaned
    } else {
        kaspa_prefix() + cleaned
    }
}

/// A payload is 61 (P2PKH) or 63 (P2SH) Bech32 characters.
pub open spec fn is_valid_payload(p: Seq<char>) -> bool {
    &&& (p.len() == 61 || p.len() == 63)
    &&& forall|i: int| 0 <= i < p.len() ==> bech32_alphabet().contains(#[trigger] p[i])
}

/// The verdict on an input that is already trimmed and in lower case.
pub open spec fn cleaned_wallet_verdict(cleaned: Seq<char>) -> Option<Seq<char>> {
    let target = wallet_target(cleaned);
    if is_valid_payload(target.subrange(6, target.len() as int)) {
        Some(target)
    } else {
        None
    }
}

/// The verdict on a raw input: trimmed, then put in lower case, then judged.
pub open spec fn wallet_verdict(address: Seq<char>) -> Option<Seq<char>> {
    cleaned_wallet_verdict(unicode_lowercase(trimmed(address)))
}

fn in_alphabet(alphabet: &Vec<char>, c: char) -> (b: bool)
    ensures
        b == alphabet@.contains(c),
{
    let mut i: usize = 0;
    while i < alphabet.len()
        invariant
            i <= alphabet@.len(),
            forall|k: int| 0 <= k < i ==> alphabet@[k] != c,
        decreases alphabet@.len() - i,
    {
        if alphabet[i] == c {
            return true;
        }
        i = i + 1;
    }
    false
}

/// Does `s` start with `kaspa:`?
pub(crate) fn starts_with_kaspa_prefix(s: &str) -> (b: bool)
    ensures
        b == kaspa_prefix().is_prefix_of(s@),
{
    proof {
        reveal_strlit("kaspa:");
    }
    let prefix = chars_of("kaspa:");
    assert(prefix@ =~= kaspa_prefix());
    let c = chars_of(s);
    if c.len() < 6 {
        return false;
    }
    let mut k: usize = 0;
    while k < 6
        invariant
            prefix@ == kaspa_prefix(),
            c@ == s@,
            c@.len() >= 6,
            k <= 6,
            forall|m: int| 0 <= m < k ==> c@[m] == prefix@[m],
        decreases 6 - k,
    {
        if c[k] != prefix[k] {
            return false;
        }
        k = k + 1;
    }
    true
}

/// Judges an input that is already trimmed and in lower case: the
/// `kaspa:` prefix is added when missing, and the address is accepted only
/// when its payload is 61 or 63 characters of the Bech32 alphabet (which
/// also rules out a second `:`).
pub fn validate_cleaned_wallet(cleaned: &str) -> (r: Option<String>)
    ensures
        r.deep_view() == cleaned_wallet_verdict(cleaned@),
{
    proof {
        reveal_strlit("kaspa:");
    }
    let c = chars_of(cleaned);
    let has_prefix = starts_with_kaspa_prefix(cleaned);
    let target: String = if has_prefix {
        assert(kaspa_prefix().is_prefix_of(c@));
        string_of_range(&c, 0, c.len())
    } else {
        let mut t = String::from_str("kaspa:");
        t.append(cleaned);
        t
    };
    assert(c@.subrange(0, c@.len() as int) =~= c@);
    assert(target@ == wallet_target(cleaned@));
    assert(kaspa_prefix().is_prefix_of(target@)) by {
        if !has_prefix {
            assert(target@.subrange(0, 6) =~= kaspa_prefix());
        }
    }
    let tv = chars_of(target.as_str());
    let n = tv.len();
    let plen = n - 6;
    if plen != 61 && plen != 63 {
        assert(tv@.subrange(6, n as int).len() == plen);
        return None;
    }
    let alphabet = chars_of("qpzry9x8gf2tvdw0s3jn54khce6mua7l");
    let mut i: usize = 6;
    while i < n
        invariant
            n == tv@.len(),
            6 <= i <= n,
            alphabet@ == bech32_alphabet(),
            tv@ == wallet_target(cleaned@),
            forall|m: int| 6 <= m < i ==> bech32_alphabet().contains(#[trigger] tv@[m]),
        decreases n - i,
    {
        if !in_alphabet(&alphabet, tv[i]) {
            assert(!bech32_alphabet().contains(tv@.subrange(6, n as int)[i - 6]));
            return None;
        }
        i = i + 1;
    }
    assert(is_valid_payload(tv@.subrange(6, n as int)));
    Some(target)
}

/// The verdict on a raw ASCII input, where lower case is `ascii_lower`.
pub open spec fn ascii_wallet_verdict(address: Seq<char>) -> Option<Seq<char>> {
    cleaned_wallet_verdict(ascii_lower(trimmed(address)))
}

/// Trims the input, puts it in lower case and judges it: `Some` holds the
/// full `kaspa:` address when the payload is 61 or 63 Bech32 characters.
pub fn clean_and_validate_wallet(address: &str) -> (r: Option<String>)
    ensures
        r.deep_view() == wallet_verdict(address@),
        is_ascii_chars(address@) ==> r.deep_view() == ascii_wallet_verdict(address@),
{
    let t = trim(address);
    proof {
        lemma_trimmed_keeps_ascii(address@);
    }
    let lower = to_lowercase(t.as_str());
    validate_cleaned_wallet(lower.as_str())
}

/// An accepted address is judged again as itself: validation is idempotent
/// on its own output.
pub proof fn lemma_cleaned_verdict_idempotent(cleaned: Seq<char>)
    requires
        cleaned_wallet_verdict(cleaned) is Some,
    ensures
        cleaned_wallet_verdict(cleaned_wallet_verdict(cleaned).unwrap()) == cleaned_wallet_verdict(
            cleaned,
        ),
        kaspa_prefix().is_prefix_of(cleaned_wallet_verdict(cleaned).unwrap()),
{
    let t = wallet_target(cleaned);
    if !kaspa_prefix().is_prefix_of(cleaned) {
        assert(t.subrange(0, 6) =~= kaspa_prefix());
    }
    assert(kaspa_prefix().is_prefix_of(t));
}

// ---------------------------------------------------------------------
// Laws of validation
// ---------------------------------------------------------------------

/// An ASCII character that is a small letter or a digit.
pub open spec fn is_small_alnum(c: char) -> bool {
    ('a' <= c <= 'z') || ('0' <= c <= '9')
}

proof fn lemma_bech32_char(x: char)
    requires
        bech32_alphabet().contains(x),
    ensures
        is_small_alnum(x),
{
    reveal_strlit("qpzry9x8gf2tvdw0s3jn54khce6mua7l");
    let j = choose|j: int| 0 <= j < bech32_alphabet().len() && bech32_alphabet()[j] == x;
    assert(0 <= j < 32);
}

proof fn lemma_small_alnum_char(c: char)
    requires
        is_small_alnum(c) || c == ':',
    ensures
        !is_white_space(c),
        ascii_lower_char(c) == c,
        '\0' <= c <= '\u{7f}',
{
}

proof fn lemma_trim_start_keeps_ascii(s: Seq<char>)
    requires
        is_ascii_chars(s),
    ensures
        is_ascii_chars(trim_start(s)),
    decreases s.len(),
{
    if s.len() > 0 && is_white_space(s[0]) {
        assert(is_ascii_chars(s.drop_first()));
        lemma_trim_start_keeps_ascii(s.drop_first());
    }
}

proof fn lemma_trim_end_keeps_ascii(s: Seq<char>)
    requires
        is_ascii_chars(s),
    ensures
        is_ascii_chars(trim_end(s)),
    decreases s.len(),
{
    if s.len() > 0 && is_white_space(s.last()) {
        assert(is_ascii_chars(s.drop_last()));
        lemma_trim_end_keeps_ascii(s.drop_last());
    }
}

proof fn lemma_trimmed_keeps_ascii(s: Seq<char>)
    ensures
        is_ascii_chars(s) ==> is_ascii_chars(trimmed(s)),
{
    if is_ascii_chars(s) {
        lemma_trim_start_keeps_ascii(s);
        lemma_trim_end_keeps_ascii(trim_start(s));
    }
}

proof fn lemma_trim_end_last(s: Seq<char>)
    ensures
        trim_end(s).len() > 0 ==> !is_white_space(trim_end(s).last()),
    decreases s.len(),
{
    if s.len() > 0 && is_white_space(s.last()) {
        lemma_trim_end_last(s.drop_last());
    }
}

/// All characters of `w` are white space.
pub open spec fn all_white(w: Seq<char>) -> bool {
    forall|i: int| 0 <= i < w.len() ==> is_white_space(#[trigger] w[i])
}

proof fn lemma_trim_start_white_prefix(w: Seq<char>, s: Seq<char>)
    requires
        all_white(w),
    ensures
        trim_start(w + s) == trim_start(s),
    decreases w.len(),
{
    if w.len() == 0 {
        assert(w + s =~= s);
    } else {
        assert((w + s)[0] == w[0]);
        assert((w + s).drop_first() =~= w.drop_first() + s);
        lemma_trim_start_white_prefix(w.drop_first(), s);
    }
}

proof fn lemma_trim_end_white_suffix(s: Seq<char>, w: Seq<char>)
    requires
        all_white(w),
    ensures
        trim_end(s + w) == trim_end(s),
    decreases w.len(),
{
    if w.len() == 0 {
        assert(s + w =~= s);
    } else {
        assert((s + w).last() == w.last());
        assert((s + w).drop_last() =~= s + w.drop_last());
        lemma_trim_end_white_suffix(s, w.drop_last());
    }
}

proof fn lemma_trim_start_append(s: Seq<char>, t: Seq<char>)
    ensures
        trim_start(s).len() > 0 ==> trim_start(s + t) == trim_start(s) + t,
        trim_start(s).len() == 0 ==> trim_start(s + t) == trim_start(t),
    decreases s.len(),
{
    if s.len() == 0 {
        assert(s + t =~= t);
    } else {
        assert((s + t)[0] == s[0]);
        if is_white_space(s[0]) {
            assert((s + t).drop_first() =~= s.drop_first() + t);
            lemma_trim_start_append(s.drop_first(), t);
        }
    }
}

/// White space around an input is ignored: `trimmed(w + s + w) == trimmed(s)`.
proof fn lemma_trimmed_padding(s: Seq<char>, w: Seq<char>)
    requires
        all_white(w),
    ensures
        trimmed(w + s + w) == trimmed(s),
{
    assert(w + s + w =~= w + (s + w));
    lemma_trim_start_white_prefix(w, s + w);
    lemma_trim_start_append(s, w);
    if trim_start(s).len() > 0 {
        lemma_trim_end_white_suffix(trim_start(s), w);
    } else {
        lemma_trim_start_white_prefix(w, Seq::empty());
        assert(w + Seq::<char>::empty() =~= w);
    }
}

proof fn lemma_upper_keeps_white(c: char)
    ensures
        is_white_space(ascii_upper_char(c)) == is_white_space(c),
        ascii_lower_char(ascii_upper_char(c)) == ascii_lower_char(c),
{
}

proof fn lemma_trim_start_upper(s: Seq<char>)
    ensures
        trim_start(ascii_upper(s)) == ascii_upper(trim_start(s)),
    decreases s.len(),
{
    if s.len() > 0 {
        lemma_upper_keeps_white(s[0]);
        assert(ascii_upper(s).drop_first() =~= ascii_upper(s.drop_first()));
        if is_white_space(s[0]) {
            lemma_trim_start_upper(s.drop_first());
        }
    }
}

proof fn lemma_trim_end_upper(s: Seq<char>)
    ensures
        trim_end(ascii_upper(s)) == ascii_upper(trim_end(s)),
    decreases s.len(),
{
    if s.len() > 0 {
        lemma_upper_keeps_white(s.last());
        assert(ascii_upper(s).drop_last() =~= ascii_upper(s.drop_last()));
        if is_white_space(s.last()) {
            lemma_trim_end_upper(s.drop_last());
        }
    }
}

/// Validation gives back an accepted address unchanged: the address it
/// returns is ASCII, and judged again it is accepted as itself.
pub proof fn lemma_accepted_address_is_fixed(address: Seq<char>)
    requires
        wallet_verdict(address) is Some,
    ensures
        is_ascii_chars(wallet_verdict(address).unwrap()),
        ascii_wallet_verdict(wallet_verdict(address).unwrap()) == wallet_verdict(address),
{
    let c = unicode_lowercase(trimmed(address));
    lemma_cleaned_verdict_idempotent(c);
    let t = wallet_verdict(address).unwrap();
    let n = t.len() as int;
    assert forall|i: int| 0 <= i < n implies is_small_alnum(#[trigger] t[i]) || t[i] == ':' by {
        if i >= 6 {
            assert(t[i] == t.subrange(6, n)[i - 6]);
            lemma_bech32_char(t[i]);
        } else {
            assert(t[i] == kaspa_prefix()[i]);
        }
    }
    assert forall|i: int| 0 <= i < n implies '\0' <= #[trigger] t[i] <= '\u{7f}' by {
        lemma_small_alnum_char(t[i]);
    }
    assert(ascii_lower(t) =~= t) by {
        assert forall|i: int| 0 <= i < n implies #[trigger] ascii_lower(t)[i] == t[i] by {
            lemma_small_alnum_char(t[i]);
        }
    }
    lemma_small_alnum_char(t[0]);
    lemma_small_alnum_char(t[n - 1]);
    assert(trim_start(t) == t);
    assert(trim_end(t) == t);
}

/// Surrounding white space and letter case never change the verdict on an
/// ASCII input: `"  " + upper(a) + "  "` is judged as `a` is.
pub proof fn lemma_case_and_spaces_ignored(a: Seq<char>)
    requires
        is_ascii_chars(a),
    ensures
        is_ascii_chars(seq![' ', ' '] + ascii_upper(a) + seq![' ', ' ']),
        ascii_wallet_verdict(seq![' ', ' '] + ascii_upper(a) + seq![' ', ' ']) == ascii_wallet_verdict(a),
{
    let w = seq![' ', ' '];
    let u = ascii_upper(a);
    let padded = w + u + w;
    assert(all_white(w));
    assert forall|i: int| 0 <= i < padded.len() implies '\0' <= #[trigger] padded[i] <= '\u{7f}' by {
        if w.len() <= i < w.len() + u.len() {
            assert(padded[i] == u[i - w.len()]);
        }
    }
    lemma_trimmed_padding(u, w);
    lemma_trim_start_upper(a);
    lemma_trim_end_upper(trim_start(a));
    let x = trimmed(a);
    assert(ascii_lower(ascii_upper(x)) =~= ascii_lower(x)) by {
        assert forall|i: int| 0 <= i < x.len() implies #[trigger] ascii_lower(ascii_upper(x))[i]
            == ascii_lower(x)[i] by {
            lemma_upper_keeps_white(x[i]);
        }
    }
}

/// The `kaspa:` prefix is optional: a trimmed ASCII input that does not
/// start with it (in any case) is judged as the same input behind it.
pub proof fn lemma_prefix_is_optional(p: Seq<char>)
    requires
        is_ascii_chars(p),
        trimmed(p) == p,
        !kaspa_prefix().is_prefix_of(ascii_lower(p)),
    ensures
        is_ascii_chars(kaspa_prefix() + p),
        ascii_wallet_verdict(kaspa_prefix() + p) == ascii_wallet_verdict(p),
{
    let k = kaspa_prefix();
    let x = k + p;
    assert forall|i: int| 0 <= i < x.len() implies '\0' <= #[trigger] x[i] <= '\u{7f}' by {
        if i >= 6 {
            assert(x[i] == p[i - 6]);
        }
    }
    assert(trim_start(x) == x) by {
        assert(x[0] == 'k');
    }
    assert(trim_end(x) == x) by {
        if p.len() > 0 {
            lemma_trim_end_last(trim_start(p));
            assert(x.last() == p.last());
        } else {
            assert(x.last() == ':');
        }
    }
    assert(ascii_lower(x) =~= k + ascii_lower(p)) by {
        assert forall|i: int| 0 <= i < x.len() implies #[trigger] ascii_lower(x)[i] == (k
            + ascii_lower(p))[i] by {
            if i < 6 {
                lemma_small_alnum_char(k[i]);
            }
        }
    }
    assert(k.is_prefix_of(k + ascii_lower(p))) by {
        assert((k + ascii_lower(p)).subrange(0, 6) =~= k);
    }
}

/// The Bech32 characters, as the Kaspa address format lists them.
spec fn listed_bech32() -> Seq<char> {
    seq![
        'q', 'p', 'z', 'r', 'y', '9', 'x', '8', 'g', 'f', '2', 't', 'v', 'd', 'w', '0',
        's', '3', 'j', 'n', '5', '4', 'k', 'h', 'c', 'e', '6', 'm', 'u', 'a', '7', 'l',
    ]
}

/// `n` copies of `x`.
pub open spec fn repeated(x: char, n: nat) -> Seq<char> {
    Seq::new(n, |_i: int| x)
}

/// Every one of the 32 Bech32 characters makes a valid payload: `kaspa:`
/// followed by 61 or by 63 copies of it is accepted as itself, and the same
/// payload without the prefix is accepted with the prefix added.
pub proof fn lemma_every_bech32_character_is_accepted(i: int)
    requires
        0 <= i < 32,
    ensures
        ({
            let x = seq![
                'q', 'p', 'z', 'r', 'y', '9', 'x', '8', 'g', 'f', '2', 't', 'v', 'd', 'w', '0',
                's', '3', 'j', 'n', '5', '4', 'k', 'h', 'c', 'e', '6', 'm', 'u', 'a', '7', 'l',
            ][i];
            let pre = seq!['k', 'a', 's', 'p', 'a', ':'];
            &&& cleaned_wallet_verdict(pre + repeated(x, 61)) == Some(pre + repeated(x, 61))
            &&& cleaned_wallet_verdict(pre + repeated(x, 63)) == Some(pre + repeated(x, 63))
            &&& cleaned_wallet_verdict(repeated(x, 61)) == Some(pre + repeated(x, 61))
            &&& cleaned_wallet_verdict(repeated(x, 63)) == Some(pre + repeated(x, 63))
        }),
{
    reveal_strlit("qpzry9x8gf2tvdw0s3jn54khce6mua7l");
    let lit = listed_bech32();
    assert(bech32_alphabet() =~= lit);
    let x = lit[i];
    assert(bech32_alphabet().contains(x));
    lemma_repeated_payload(x, 61);
    lemma_repeated_payload(x, 63);
}

proof fn lemma_repeated_payload(x: char, n: nat)
    requires
        bech32_alphabet().contains(x),
        n == 61 || n == 63,
    ensures
        cleaned_wallet_verdict(kaspa_prefix() + repeated(x, n)) == Some(kaspa_prefix() + repeated(x, n)),
        cleaned_wallet_verdict(repeated(x, n)) == Some(kaspa_prefix() + repeated(x, n)),
{
    let p = repeated(x, n);
    let t = kaspa_prefix() + p;
    assert(kaspa_prefix().is_prefix_of(t)) by {
        assert(t.subrange(0, 6) =~= kaspa_prefix());
    }
    assert(t.subrange(6, t.len() as int) =~= p);
    lemma_bech32_char(x);
    assert(!kaspa_prefix().is_prefix_of(p)) by {
        assert(p[0] == x);
        assert(kaspa_prefix()[0] == 'k');
        if x == 'k' {
            assert(p[1] == x);
        }
    }
}

/// Characters outside the Bech32 alphabet are refused: a payload holding
/// `b`, `i`, `o` or `1` (or a capital letter) is never accepted.
pub proof fn lemma_non_bech32_characters_are_refused(cleaned: Seq<char>, j: int)
    requires
        6 <= j < wallet_target(cleaned).len(),
        ({
            let c = wallet_target(cleaned)[j];
            c == 'b' || c == 'i' || c == 'o' || c == '1' || ('A' <= c <= 'Z')
        }),
    ensures
        cleaned_wallet_verdict(cleaned) is None,
{
    reveal_strlit("qpzry9x8gf2tvdw0s3jn54khce6mua7l");
    let t = wallet_target(cleaned);
    let p = t.subrange(6, t.len() as int);
    assert(p[j - 6] == t[j]);
    if bech32_alphabet().contains(t[j]) {
        lemma_bech32_char(t[j]);
        let k = choose|k: int| 0 <= k < bech32_alphabet().len() && bech32_alphabet()[k] == t[j];
        assert(bech32_alphabet() =~= listed_bech32());
    }
}

// ---------------------------------------------------------------------
// Compact address form
// ---------------------------------------------------------------------

/// `a` holds exactly one `:`, at index `j`.
pub open spec fn is_single_colon_at(a: Seq<char>, j: int) -> bool {
    &&& 0 <= j < a.len()
    &&& a[j] == ':'
    &&& forall|k: int| 0 <= k < a.len() && k != j ==> a[k] != ':'
}

/// `a` splits at `:` into exactly two parts.
pub open spec fn has_single_colon(a: Seq<char>) -> bool {
    exists|j: int| is_single_colon_at(a, j)
}

/// The index of the only `:` of `a` (meaningful when there is one).
pub open spec fn colon_index(a: Seq<char>) -> int {
    choose|j: int| is_single_colon_at(a, j)
}

/// What stands after the only `:` of `a`.
pub open spec fn address_payload(a: Seq<char>) -> Seq<char> {
    a.subrange(colon_index(a) + 1, a.len() as int)
}

/// The UTF-8 bytes of the payload of `a`.
pub open spec fn payload_bytes(a: Seq<char>) -> Seq<u8> {
    encode_utf8(address_payload(a))
}

/// The address is abbreviated: it is not empty, it has exactly one `:`,
/// and its payload is longer than 12 bytes.
pub open spec fn is_abbreviated(a: Seq<char>) -> bool {
    &&& a.len() > 0
    &&& has_single_colon(a)
    &&& payload_bytes(a).len() > 12
}

/// The payload can be cut after its third byte and before its sixth-last
/// byte without splitting a character (cutting elsewhere panics).
pub open spec fn cut_is_on_char_boundaries(a: Seq<char>) -> bool {
    is_abbreviated(a) ==> {
        let pb = payload_bytes(a);
        is_char_boundary(pb, 3) && is_char_boundary(pb, pb.len() - 6)
    }
}

/// `N/A` for the empty address; `prefix:abc...uvwxyz` (first 3 and last 6
/// bytes of the payload) for an abbreviated one; the address itself
/// otherwise.
pub open spec fn compact_address(a: Seq<char>) -> Seq<char> {
    if a.len() == 0 {
        "N/A"@
    } else if is_abbreviated(a) {
        let pb = payload_bytes(a);
        a.subrange(0, colon_index(a)) + ":"@ + decode_utf8(pb.subrange(0, 3)) + "..."@
            + decode_utf8(pb.subrange(pb.len() - 6, pb.len() as int))
    } else {
        a
    }
}

/// Where the only `:` of `v` stands, if `v` holds exactly one.
fn single_colon_index(v: &Vec<char>) -> (r: Option<usize>)
    ensures
        r is Some <==> has_single_colon(v@),
        r matches Some(j) ==> j == colon_index(v@) && is_single_colon_at(v@, j as int),
{
    let n = v.len();
    // 0: no colon yet; 1: one colon, at `first`; 2: at least two
    let mut count: u8 = 0;
    let mut first: usize = 0;
    let mut second: usize = 0;
    let mut i: usize = 0;
    while i < n
        invariant
            n == v@.len(),
            i <= n,
            count <= 2,
            count == 0 ==> forall|k: int| 0 <= k < i ==> v@[k] != ':',
            count >= 1 ==> first < i && v@[first as int] == ':',
            count == 1 ==> forall|k: int| 0 <= k < i && k != first ==> v@[k] != ':',
            count == 2 ==> second < i && second != first && v@[second as int] == ':',
        decreases n - i,
    {
        if v[i] == ':' {
            if count == 0 {
                first = i;
                count = 1;
            } else if count == 1 {
                second = i;
                count = 2;
            }
        }
        i = i + 1;
    }
    let ghost a = v@;
    if count != 1 {
        assert(!has_single_colon(a)) by {
            if has_single_colon(a) {
                let j = choose|j: int| is_single_colon_at(a, j);
                if count == 2 {
                    assert(first == j && second == j);
                } else {
                    assert(a[j] != ':');
                }
            }
        }
        return None;
    }
    assert(is_single_colon_at(a, first as int));
    assert(colon_index(a) == first) by {
        let j = colon_index(a);
        assert(is_single_colon_at(a, j));
        if j != first {
            assert(a[first as int] != ':');
        }
    }
    Some(first)
}

/// Abbreviates an address (or a transaction or block hash) for an alert.
pub fn format_short_wallet(address: &str) -> (r: String)
    requires
        cut_is_on_char_boundaries(address@),
    ensures
        r@ == compact_address(address@),
{
    let v = chars_of(address);
    let n = v.len();
    if n == 0 {
        return String::from_str("N/A");
    }
    let first = match single_colon_index(&v) {
        Some(j) => j,
        None => {
            return String::from_str(address);
        },
    };
    let ghost a = address@;
    let payload = string_of_range(&v, first + 1, n);
    let ps: &str = payload.as_str();
    assert(ps@ == address_payload(a));
    assert(ps.spec_bytes() == payload_bytes(a));
    assert(has_single_colon(a));
    let blen = ps.as_bytes().len();
    if blen <= 12 {
        return String::from_str(address);
    }
    let (start, _) = ps.split_at(3);
    let (_, end) = ps.split_at(blen - 6);
    proof {
        encode_utf8_decode_utf8(start@);
        encode_utf8_decode_utf8(end@);
    }
    let mut r = string_of_range(&v, 0, first);
    r.append(":");
    r.append(start);
    r.append("...");
    r.append(end);
    r
}

/// Can `format_short_wallet` cut `address` without splitting a character?
pub fn abbreviation_is_safe(address: &str) -> (b: bool)
    ensures
        b == cut_is_on_char_boundaries(address@),
{
    let v = chars_of(address);
    let n = v.len();
    if n == 0 {
        return true;
    }
    let first = match single_colon_index(&v) {
        Some(j) => j,
        None => {
            return true;
        },
    };
    let payload = string_of_range(&v, first + 1, n);
    let ps: &str = payload.as_str();
    assert(ps.spec_bytes() == payload_bytes(address@));
    let blen = ps.as_bytes().len();
    if blen <= 12 {
        return true;
    }
    ps.is_char_boundary(3) && ps.is_char_boundary(blen - 6)
}

proof fn lemma_ascii_piece(p: Seq<char>, from: int, to: int)
    requires
        is_ascii_chars(p),
        0 <= from <= to <= p.len(),
    ensures
        encode_utf8(p).subrange(from, to) == encode_utf8(p.subrange(from, to)),
        decode_utf8(encode_utf8(p).subrange(from, to)) == p.subrange(from, to),
{
    let q = p.subrange(from, to);
    assert(is_ascii_chars(q));
    is_ascii_chars_encode_utf8(p);
    is_ascii_chars_encode_utf8(q);
    assert(encode_utf8(p).subrange(from, to) =~= encode_utf8(q));
    encode_utf8_decode_utf8(q);
}

proof fn lemma_ascii_boundary(p: Seq<char>, i: int)
    requires
        is_ascii_chars(p),
        0 <= i < p.len(),
    ensures
        is_char_boundary(encode_utf8(p), i),
{
    let pb = encode_utf8(p);
    is_ascii_chars_encode_utf8(p);
    encode_utf8_valid_utf8(p);
    let c = p[i];
    assert('\0' <= c <= '\u{7f}');
    let b = pb[i];
    assert(b == c as u8);
    assert((c as u32) < 128);
    assert(b < 128);
    assert(b < 128 ==> (b & 0xC0) != 0x80) by (bit_vector);
    is_char_boundary_iff_not_is_continuation_byte(pb, i);
}

/// For an ASCII address (every real address and hash), the compact form is
/// character-wise: the prefix, `:`, the payload's first 3 characters, `...`
/// and its last 6; and the cut is always safe.
pub proof fn lemma_ascii_compact_address(a: Seq<char>)
    requires
        is_ascii_chars(a),
        has_single_colon(a),
        address_payload(a).len() > 12,
    ensures
        cut_is_on_char_boundaries(a),
        compact_address(a) == a.subrange(0, colon_index(a)) + ":"@ + address_payload(a).subrange(0, 3)
            + "..."@ + address_payload(a).subrange(
            address_payload(a).len() - 6,
            address_payload(a).len() as int,
        ),
{
    let j = colon_index(a);
    let p = address_payload(a);
    assert(is_single_colon_at(a, j));
    assert(is_ascii_chars(p));
    is_ascii_chars_encode_utf8(p);
    let n = p.len() as int;
    lemma_ascii_boundary(p, 3);
    lemma_ascii_boundary(p, n - 6);
    lemma_ascii_piece(p, 0, 3);
    lemma_ascii_piece(p, n - 6, n);
}

proof fn lemma_encode_concat(x: Seq<char>, y: Seq<char>)
    ensures
        encode_utf8(x + y) == encode_utf8(x) + encode_utf8(y),
    decreases x.len(),
{
    if x.len() == 0 {
        assert(x + y =~= y);
        assert(encode_utf8(x) + encode_utf8(y) =~= encode_utf8(y));
    } else {
        assert((x + y).drop_first() =~= x.drop_first() + y);
        assert((x + y)[0] == x[0]);
        lemma_encode_concat(x.drop_first(), y);
        let e = encode_scalar(x[0] as u32);
        assert(e + (encode_utf8(x.drop_first()) + encode_utf8(y)) =~= (e + encode_utf8(x.drop_first()))
            + encode_utf8(y));
    }
}

/// Compacting is stable: the compact form of an address is its own compact
/// form (its payload is at most 12 bytes, or it is `N/A`).
pub proof fn lemma_compact_address_stable(a: Seq<char>)
    requires
        cut_is_on_char_boundaries(a),
    ensures
        compact_address(compact_address(a)) == compact_address(a),
{
    reveal_strlit("N/A");
    reveal_strlit(":");
    reveal_strlit("...");
    if a.len() == 0 {
        let na = "N/A"@;
        assert(!has_single_colon(na)) by {
            if has_single_colon(na) {
                let k = choose|k: int| is_single_colon_at(na, k);
                assert(na[k] == ':');
            }
        }
    } else if is_abbreviated(a) {
        let j = colon_index(a);
        assert(is_single_colon_at(a, j));
        let p = address_payload(a);
        let pb = payload_bytes(a);
        let n = pb.len() as int;
        encode_utf8_valid_utf8(p);
        encode_utf8_decode_utf8(p);
        let st = decode_utf8(pb.subrange(0, 3));
        let en = decode_utf8(pb.subrange(n - 6, n));
        decode_utf8_split(pb, 3);
        decode_utf8_split(pb, n - 6);
        valid_utf8_split(pb, 3);
        valid_utf8_split(pb, n - 6);
        decode_utf8_encode_utf8(pb.subrange(0, 3));
        decode_utf8_encode_utf8(pb.subrange(n - 6, n));
        let rest_st = decode_utf8(pb.subrange(3, n));
        let head_en = decode_utf8(pb.subrange(0, n - 6));
        assert(p == st + rest_st);
        assert(p == head_en + en);
        assert forall|k: int| 0 <= k < st.len() implies #[trigger] st[k] != ':' by {
            assert(st[k] == p[k]);
            assert(p[k] == a[j + 1 + k]);
        }
        assert forall|k: int| 0 <= k < en.len() implies #[trigger] en[k] != ':' by {
            assert(en[k] == p[head_en.len() + k]);
            assert(p[head_en.len() + k] == a[j + 1 + head_en.len() + k]);
        }
        let pre = a.subrange(0, j);
        let dots = "..."@;
        let c = pre + ":"@ + st + dots + en;
        assert(c == compact_address(a));
        let q = st + dots + en;
        assert(c =~= pre + seq![':'] + q);
        assert forall|k: int| 0 <= k < q.len() implies #[trigger] q[k] != ':' by {
            if k < st.len() {
                assert(q[k] == st[k]);
            } else if k < st.len() + 3 {
                assert(q[k] == dots[k - st.len()]);
            } else {
                assert(q[k] == en[k - st.len() - 3]);
            }
        }
        assert(is_single_colon_at(c, j)) by {
            assert forall|k: int| 0 <= k < c.len() && k != j implies c[k] != ':' by {
                if k < j {
                    assert(c[k] == a[k]);
                } else {
                    assert(c[k] == q[k - j - 1]);
                }
            }
        }
        assert(colon_index(c) == j) by {
            let k = colon_index(c);
            assert(is_single_colon_at(c, k));
        }
        assert(address_payload(c) =~= q);
        lemma_encode_concat(st + dots, en);
        lemma_encode_concat(st, dots);
        assert(is_ascii_chars(dots));
        is_ascii_chars_encode_utf8(dots);
        assert(payload_bytes(c).len() == 12);
    }
}

} // verus!
