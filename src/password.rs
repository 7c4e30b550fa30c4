//! Rule-driven password synthesis and the pronounceable variant.
use vstd::prelude::*;
use crate::crypto::random_below;

verus! {

/// What a generated password may hold and must contain.
#[derive(Clone, Copy, Debug)]
pub struct PasswordRules {
    pub length: usize,
    pub use_uppercase: bool,
    pub use_lowercase: bool,
    pub use_digits: bool,
    pub use_symbols: bool,
    pub exclude_ambiguous: bool,
    pub require_each_type: bool,
}

/// The symbol pool, in order.
pub open spec fn symbol_chars() -> Seq<char> {
    seq![
        '!', '@', '#', '$', '%', '^', '&', '*', '(', ')', '_', '+', '-', '=', '[', ']', '{', '}',
        '|', ';', ':', ',', '.', '<', '>', '?',
    ]
}

pub open spec fn consonant_chars() -> Seq<char> {
    seq![
        'b', 'c', 'd', 'f', 'g', 'h', 'j', 'k', 'l', 'm', 'n', 'p', 'q', 'r', 's', 't', 'v', 'w',
        'x', 'y', 'z',
    ]
}

pub open spec fn vowel_chars() -> Seq<char> {
    seq!['a', 'e', 'i', 'o', 'u']
}

/// The password given when no pool is enabled.
pub open spec fn fallback_password() -> Seq<char> {
    seq!['p', 'a', 's', 's', 'w', 'o', 'r', 'd']
}

/// Characters easily mistaken for one another.
pub open spec fn is_ambiguous(c: char) -> bool {
    c == 'I' || c == 'O' || c == 'i' || c == 'l' || c == 'o' || c == '0' || c == '1'
}

pub open spec fn in_upper(exclude: bool, c: char) -> bool {
    'A' <= c <= 'Z' && !(exclude && is_ambiguous(c))
}

pub open spec fn in_lower(exclude: bool, c: char) -> bool {
    'a' <= c <= 'z' && !(exclude && is_ambiguous(c))
}

pub open spec fn in_digit(exclude: bool, c: char) -> bool {
    '0' <= c <= '9' && !(exclude && is_ambiguous(c))
}

pub open spec fn in_symbol(c: char) -> bool {
    symbol_chars().contains(c)
}

pub open spec fn has_where(s: Seq<char>, p: spec_fn(char) -> bool) -> bool {
    exists|i: int| 0 <= i < s.len() && #[trigger] p(s[i])
}

pub open spec fn all_where(s: Seq<char>, p: spec_fn(char) -> bool) -> bool {
    forall|i: int| 0 <= i < s.len() ==> #[trigger] p(s[i])
}

pub open spec fn upper_of(x: bool) -> spec_fn(char) -> bool {
    |c: char| in_upper(x, c)
}

pub open spec fn lower_of(x: bool) -> spec_fn(char) -> bool {
    |c: char| in_lower(x, c)
}

pub open spec fn digit_of(x: bool) -> spec_fn(char) -> bool {
    |c: char| in_digit(x, c)
}

pub open spec fn symbol_of() -> spec_fn(char) -> bool {
    |c: char| in_symbol(c)
}

impl PasswordRules {
    pub open spec fn no_pool(&self) -> bool {
        !self.use_uppercase && !self.use_lowercase && !self.use_digits && !self.use_symbols
    }

    /// Whether `c` belongs to one of the enabled pools.
    pub open spec fn allows(&self, c: char) -> bool {
        ||| self.use_uppercase && in_upper(self.exclude_ambiguous, c)
        ||| self.use_lowercase && in_lower(self.exclude_ambiguous, c)
        ||| self.use_digits && in_digit(self.exclude_ambiguous, c)
        ||| self.use_symbols && in_symbol(c)
    }

    /// How many pools are enabled.
    pub open spec fn enabled_count(&self) -> nat {
        (if self.use_uppercase { 1nat } else { 0nat }) + (if self.use_lowercase { 1nat } else { 0nat })
            + (if self.use_digits { 1nat } else { 0nat }) + (if self.use_symbols { 1nat } else { 0nat })
    }

    /// Every enabled pool contributes a character of `s`.
    pub open spec fn covered_by(&self, s: Seq<char>) -> bool {
        let x = self.exclude_ambiguous;
        &&& self.use_uppercase ==> has_where(s, upper_of(x))
        &&& self.use_lowercase ==> has_where(s, lower_of(x))
        &&& self.use_digits ==> has_where(s, digit_of(x))
        &&& self.use_symbols ==> has_where(s, symbol_of())
    }

    pub open spec fn allowed(&self) -> spec_fn(char) -> bool {
        |c: char| self.allows(c)
    }
}

/// All pools, no ambiguous characters, each pool required.
pub open spec fn default_rules(length: usize) -> PasswordRules {
    PasswordRules {
        length,
        use_uppercase: true,
        use_lowercase: true,
        use_digits: true,
        use_symbols: true,
        exclude_ambiguous: true,
        require_each_type: true,
    }
}

/// Length 16, all pools, neither flag.
pub open spec fn balanced_rules() -> PasswordRules {
    PasswordRules {
        length: 16,
        use_uppercase: true,
        use_lowercase: true,
        use_digits: true,
        use_symbols: true,
        exclude_ambiguous: false,
        require_each_type: false,
    }
}

/// Length 12, letters and digits only, neither flag.
pub open spec fn fast_rules() -> PasswordRules {
    PasswordRules {
        length: 12,
        use_uppercase: true,
        use_lowercase: true,
        use_digits: true,
        use_symbols: false,
        exclude_ambiguous: false,
        require_each_type: false,
    }
}

impl PasswordRules {
    /// The default rules: all pools, no ambiguous characters, each pool
    /// required, with the given length.
    pub fn new(length: usize) -> (r: Self)
        ensures
            r == default_rules(length),
    {
        PasswordRules {
            length,
            use_uppercase: true,
            use_lowercase: true,
            use_digits: true,
            use_symbols: true,
            exclude_ambiguous: true,
            require_each_type: true,
        }
    }

    /// Length 20, all pools, no ambiguous characters, each pool required.
    pub fn safe() -> (r: Self)
        ensures
            r == default_rules(20),
    {
        PasswordRules::new(20)
    }

    /// Length 16, all pools, neither flag.
    pub fn balanced() -> (r: Self)
        ensures
            r == balanced_rules(),
    {
        PasswordRules {
            length: 16,
            use_uppercase: true,
            use_lowercase: true,
            use_digits: true,
            use_symbols: true,
            exclude_ambiguous: false,
            require_each_type: false,
        }
    }

    /// Length 12, letters and digits only, neither flag.
    pub fn fast() -> (r: Self)
        ensures
            r == fast_rules(),
    {
        PasswordRules {
            length: 12,
            use_uppercase: true,
            use_lowercase: true,
            use_digits: true,
            use_symbols: false,
            exclude_ambiguous: false,
            require_each_type: false,
        }
    }

    /// The rules of a preset by name: `safe`, `balanced`, `fast`, and the
    /// default rules for any other name.
    pub fn preset(name: &str) -> (r: Self)
        ensures
            name@ == "safe"@ ==> r == default_rules(20),
            name@ == "balanced"@ ==> r == balanced_rules(),
            name@ == "fast"@ ==> r == fast_rules(),
            name@ != "safe"@ && name@ != "balanced"@ && name@ != "fast"@ ==> r == default_rules(16),
    {
        proof {
            reveal_strlit("safe");
            reveal_strlit("balanced");
            reveal_strlit("fast");
            assert("safe"@.len() == 4 && "balanced"@.len() == 8 && "fast"@.len() == 4);
            assert("safe"@[0] != "fast"@[0]);
        }
        if str_eq(name, "safe") {
            PasswordRules::safe()
        } else if str_eq(name, "balanced") {
            PasswordRules::balanced()
        } else if str_eq(name, "fast") {
            PasswordRules::fast()
        } else {
            PasswordRules::new(16)
        }
    }
}

impl Default for PasswordRules {
    /// The rules of `new(16)`.
    fn default() -> (r: Self)
        ensures
            r == default_rules(16),
    {
        PasswordRules::new(16)
    }
}

/// Whether two strings hold the same characters.
fn str_eq(a: &str, b: &str) -> (r: bool)
    ensures
        r == (a@ == b@),
{
    let ab = a.as_bytes();
    let bb = b.as_bytes();
    if ab.len() != bb.len() {
        proof { if a@ == b@ { assert(ab@ == bb@); } }
        return false;
    }
    let mut i: usize = 0;
    while i < ab.len()
        invariant
            ab@.len() == bb@.len(),
            i <= ab@.len(),
            ab@ == vstd::utf8::encode_utf8(a@),
            bb@ == vstd::utf8::encode_utf8(b@),
            forall|k: int| 0 <= k < i ==> ab@[k] == bb@[k],
        decreases ab@.len() - i,
    {
        if ab[i] != bb[i] {
            proof { if a@ == b@ { assert(ab@ == bb@); } }
            return false;
        }
        i = i + 1;
    }
    proof {
        assert(ab@ =~= bb@);
        vstd::utf8::encode_utf8_decode_utf8(a@);
        vstd::utf8::encode_utf8_decode_utf8(b@);
    }
    true
}

/// Relies on `String::push`: the character is appended.
#[verifier::external_body]
fn push_char(s: &mut String, c: char)
    ensures
        final(s)@ == old(s)@.push(c),
{
    s.push(c);
}

/// The characters of `v` as a string.
fn chars_to_string(v: &Vec<char>) -> (r: String)
    ensures
        r@ == v@,
{
    let mut s = String::new();
    let mut i: usize = 0;
    while i < v.len()
        invariant
            i <= v@.len(),
            s@ == v@.subrange(0, i as int),
        decreases v@.len() - i,
    {
        push_char(&mut s, v[i]);
        i = i + 1;
        assert(s@ =~= v@.subrange(0, i as int));
    }
    assert(v@.subrange(0, i as int) =~= v@);
    s
}

fn upper_pool(exclude: bool) -> (r: Vec<char>)
    ensures
        r@.len() > 0,
        forall|i: int| 0 <= i < r@.len() ==> in_upper(exclude, #[trigger] r@[i]),
{
    let mut r: Vec<char> = Vec::new();
    if exclude {
    r.push('A'); r.push('B'); r.push('C'); r.push('D'); r.push('E'); r.push('F'); r.push('G');
    r.push('H'); r.push('J'); r.push('K'); r.push('L'); r.push('M'); r.push('N'); r.push('P');
    r.push('Q'); r.push('R'); r.push('S'); r.push('T'); r.push('U'); r.push('V'); r.push('W');
    r.push('X'); r.push('Y'); r.push('Z');
    } else {
    r.push('A'); r.push('B'); r.push('C'); r.push('D'); r.push('E'); r.push('F'); r.push('G');
    r.push('H'); r.push('I'); r.push('J'); r.push('K'); r.push('L'); r.push('M'); r.push('N');
    r.push('O'); r.push('P'); r.push('Q'); r.push('R'); r.push('S'); r.push('T'); r.push('U');
    r.push('V'); r.push('W'); r.push('X'); r.push('Y'); r.push('Z');
    }
    r
}

fn lower_pool(exclude: bool) -> (r: Vec<char>)
    ensures
        r@.len() > 0,
        forall|i: int| 0 <= i < r@.len() ==> in_lower(exclude, #[trigger] r@[i]),
{
    let mut r: Vec<char> = Vec::new();
    if exclude {
    r.push('a'); r.push('b'); r.push('c'); r.push('d'); r.push('e'); r.push('f'); r.push('g');
    r.push('h'); r.push('j'); r.push('k'); r.push('m'); r.push('n'); r.push('p'); r.push('q');
    r.push('r'); r.push('s'); r.push('t'); r.push('u'); r.push('v'); r.push('w'); r.push('x');
    r.push('y'); r.push('z');
    } else {
    r.push('a'); r.push('b'); r.push('c'); r.push('d'); r.push('e'); r.push('f'); r.push('g');
    r.push('h'); r.push('i'); r.push('j'); r.push('k'); r.push('l'); r.push('m'); r.push('n');
    r.push('o'); r.push('p'); r.push('q'); r.push('r'); r.push('s'); r.push('t'); r.push('u');
    r.push('v'); r.push('w'); r.push('x'); r.push('y'); r.push('z');
    }
    r
}

fn digit_pool(exclude: bool) -> (r: Vec<char>)
    ensures
        r@.len() > 0,
        forall|i: int| 0 <= i < r@.len() ==> in_digit(exclude, #[trigger] r@[i]),
{
    let mut r: Vec<char> = Vec::new();
    if exclude {
    r.push('2'); r.push('3'); r.push('4'); r.push('5'); r.push('6'); r.push('7'); r.push('8');
    r.push('9');
    } else {
    r.push('0'); r.push('1'); r.push('2'); r.push('3'); r.push('4'); r.push('5'); r.push('6');
    r.push('7'); r.push('8'); r.push('9');
    }
    r
}

fn symbol_pool() -> (r: Vec<char>)
    ensures
        r@ == symbol_chars(),
{
    let mut r: Vec<char> = Vec::new();
    r.push('!'); r.push('@'); r.push('#'); r.push('$'); r.push('%'); r.push('^'); r.push('&');
    r.push('*'); r.push('('); r.push(')'); r.push('_'); r.push('+'); r.push('-'); r.push('=');
    r.push('['); r.push(']'); r.push('{'); r.push('}'); r.push('|'); r.push(';'); r.push(':');
    r.push(','); r.push('.'); r.push('<'); r.push('>'); r.push('?');
    assert(r@ =~= symbol_chars());
    r
}

/// Swapping two positions keeps a character that satisfies `p`.
pub proof fn lemma_swap_has(s: Seq<char>, i: int, j: int, p: spec_fn(char) -> bool)
    requires
        0 <= i < s.len(),
        0 <= j < s.len(),
        has_where(s, p),
    ensures
        has_where(s.update(i, s[j]).update(j, s[i]), p),
{
    let t = s.update(i, s[j]).update(j, s[i]);
    let k = choose|k: int| 0 <= k < s.len() && #[trigger] p(s[k]);
    if k == i {
        assert(p(t[j]));
    } else if k == j {
        assert(p(t[i]));
    } else {
        assert(p(t[k]));
    }
}

/// Swapping two positions keeps every character satisfying `p`.
pub proof fn lemma_swap_all(s: Seq<char>, i: int, j: int, p: spec_fn(char) -> bool)
    requires
        0 <= i < s.len(),
        0 <= j < s.len(),
        all_where(s, p),
    ensures
        all_where(s.update(i, s[j]).update(j, s[i]), p),
{
    let t = s.update(i, s[j]).update(j, s[i]);
    assert forall|k: int| 0 <= k < t.len() implies #[trigger] p(t[k]) by {
        if k == i { assert(p(s[j])); } else if k == j { assert(p(s[i])); } else { assert(p(s[k])); }
    }
}

proof fn lemma_concat_all(a: Seq<char>, b: Seq<char>, p: spec_fn(char) -> bool)
    requires
        all_where(a, p),
        forall|i: int| 0 <= i < b.len() ==> #[trigger] p(b[i]),
    ensures
        all_where(a + b, p),
{
    assert forall|i: int| 0 <= i < (a + b).len() implies #[trigger] p((a + b)[i]) by {
        if i < a.len() { assert(p(a[i])); } else { assert(p(b[i - a.len()])); }
    }
}

proof fn lemma_push_has(s: Seq<char>, c: char, p: spec_fn(char) -> bool)
    requires
        has_where(s, p) || p(c),
    ensures
        has_where(s.push(c), p),
{
    if has_where(s, p) {
        let k = choose|k: int| 0 <= k < s.len() && #[trigger] p(s[k]);
        assert(p(s.push(c)[k]));
    } else {
        assert(p(s.push(c)[s.len() as int]));
    }
}

fn swap_chars(v: &mut Vec<char>, i: usize, j: usize)
    requires
        i < old(v)@.len(),
        j < old(v)@.len(),
    ensures
        final(v)@ == old(v)@.update(i as int, old(v)@[j as int]).update(j as int, old(v)@[i as int]),
{
    let a = v[i];
    let b = v[j];
    v.set(i, b);
    v.set(j, a);
}

/// Appends every character of `src`.
fn append_chars(out: &mut Vec<char>, src: &Vec<char>)
    ensures
        final(out)@ == old(out)@ + src@,
{
    let mut i: usize = 0;
    while i < src.len()
        invariant
            i <= src@.len(),
            out@ == old(out)@ + src@.subrange(0, i as int),
        decreases src@.len() - i,
    {
        out.push(src[i]);
        i = i + 1;
        assert(out@ =~= old(out)@ + src@.subrange(0, i as int));
    }
    assert(src@.subrange(0, i as int) =~= src@);
}

/// One character drawn from a non-empty pool.
fn draw(pool: &Vec<char>) -> (r: char)
    requires
        pool@.len() > 0,
    ensures
        pool@.contains(r),
{
    let k = random_below(pool.len());
    assert(pool@[k as int] == pool[k as int]);
    pool[k]
}

/// A random password of `rules.length` characters from the enabled pools;
/// with `require_each_type`, one character of each enabled pool is placed
/// first, then the whole is shuffled. Where more pools are required than
/// the length allows, the shuffled buffer is cut to the length. With no
/// pool enabled the result is `password`.
pub fn generate_password(rules: &PasswordRules) -> (r: String)
    ensures
        rules.no_pool() ==> r@ == fallback_password(),
        !rules.no_pool() ==> r@.len() == rules.length,
        !rules.no_pool() ==> all_where(r@, rules.allowed()),
        !rules.no_pool() && rules.require_each_type && rules.length >= rules.enabled_count()
            ==> rules.covered_by(r@),
        !rules.no_pool() && rules.exclude_ambiguous ==> forall|i: int|
            0 <= i < r@.len() ==> !is_ambiguous(#[trigger] r@[i]),
{
    let x = rules.exclude_ambiguous;
    let upper = upper_pool(x);
    let lower = lower_pool(x);
    let digits = digit_pool(x);
    let symbols = symbol_pool();
    let ghost ok = rules.allowed();
    let mut charset: Vec<char> = Vec::new();
    if rules.use_uppercase {
        proof { lemma_concat_all(charset@, upper@, ok); }
        append_chars(&mut charset, &upper);
    }
    if rules.use_lowercase {
        proof { lemma_concat_all(charset@, lower@, ok); }
        append_chars(&mut charset, &lower);
    }
    if rules.use_digits {
        proof { lemma_concat_all(charset@, digits@, ok); }
        append_chars(&mut charset, &digits);
    }
    if rules.use_symbols {
        proof { lemma_concat_all(charset@, symbols@, ok); }
        append_chars(&mut charset, &symbols);
    }
    if charset.len() == 0 {
        proof { reveal_strlit("password"); }
        let s = "password".to_owned();
        assert(s@ =~= fallback_password());
        return s;
    }
    let mut buf: Vec<char> = Vec::new();
    if rules.require_each_type {
        if rules.use_uppercase {
            let c = draw(&upper);
            proof { lemma_push_has(buf@, c, upper_of(x)); }
            buf.push(c);
        }
        if rules.use_lowercase {
            let c = draw(&lower);
            proof {
                lemma_push_has(buf@, c, lower_of(x));
                if rules.use_uppercase { lemma_push_has(buf@, c, upper_of(x)); }
            }
            buf.push(c);
        }
        if rules.use_digits {
            let c = draw(&digits);
            proof {
                lemma_push_has(buf@, c, digit_of(x));
                if rules.use_uppercase { lemma_push_has(buf@, c, upper_of(x)); }
                if rules.use_lowercase { lemma_push_has(buf@, c, lower_of(x)); }
            }
            buf.push(c);
        }
        if rules.use_symbols {
            let c = draw(&symbols);
            proof {
                lemma_push_has(buf@, c, symbol_of());
                if rules.use_uppercase { lemma_push_has(buf@, c, upper_of(x)); }
                if rules.use_lowercase { lemma_push_has(buf@, c, lower_of(x)); }
                if rules.use_digits { lemma_push_has(buf@, c, digit_of(x)); }
            }
            buf.push(c);
        }
    }
    assert(all_where(buf@, ok));
    while buf.len() < rules.length
        invariant
            charset@.len() > 0,
            all_where(charset@, ok),
            all_where(buf@, ok),
            ok == rules.allowed(),
            x == rules.exclude_ambiguous,
            rules.require_each_type ==> rules.covered_by(buf@),
            buf@.len() <= rules.enabled_count() || buf@.len() <= rules.length,
        decreases rules.length - buf@.len(),
    {
        let c = draw(&charset);
        proof {
            if rules.require_each_type {
                if rules.use_uppercase { lemma_push_has(buf@, c, upper_of(x)); }
                if rules.use_lowercase { lemma_push_has(buf@, c, lower_of(x)); }
                if rules.use_digits { lemma_push_has(buf@, c, digit_of(x)); }
                if rules.use_symbols { lemma_push_has(buf@, c, symbol_of()); }
            }
            let k = choose|k: int| 0 <= k < charset@.len() && charset@[k] == c;
            assert(ok(charset@[k]));
            assert forall|i: int| 0 <= i < buf@.push(c).len() implies #[trigger] ok(buf@.push(c)[i]) by {
                if i < buf@.len() { assert(ok(buf@[i])); }
            }
        }
        buf.push(c);
    }
    let mut i = buf.len();
    while i > 1
        invariant
            i <= buf@.len(),
            all_where(buf@, ok),
            ok == rules.allowed(),
            x == rules.exclude_ambiguous,
            rules.require_each_type ==> rules.covered_by(buf@),
            buf@.len() >= rules.length,
            buf@.len() <= rules.enabled_count() || buf@.len() == rules.length,
        decreases i,
    {
        i = i - 1;
        let j = random_below(i + 1);
        proof {
            let s = buf@;
            lemma_swap_all(s, i as int, j as int, ok);
            if rules.require_each_type {
                if rules.use_uppercase { lemma_swap_has(s, i as int, j as int, upper_of(x)); }
                if rules.use_lowercase { lemma_swap_has(s, i as int, j as int, lower_of(x)); }
                if rules.use_digits { lemma_swap_has(s, i as int, j as int, digit_of(x)); }
                if rules.use_symbols { lemma_swap_has(s, i as int, j as int, symbol_of()); }
            }
        }
        swap_chars(&mut buf, i, j);
    }
    if buf.len() > rules.length {
        let ghost s = buf@;
        buf.truncate(rules.length);
        assert forall|k: int| 0 <= k < buf@.len() implies #[trigger] ok(buf@[k]) by {
            assert(buf@[k] == s[k]);
        }
    }
    proof {
        if rules.exclude_ambiguous {
            assert forall|i: int| 0 <= i < buf@.len() implies !is_ambiguous(#[trigger] buf@[i]) by {
                assert(ok(buf@[i]));
                if in_symbol(buf@[i]) {
                    lemma_symbols_unambiguous(buf@[i]);
                }
            }
        }
    }
    chars_to_string(&buf)
}

proof fn lemma_symbols_unambiguous(c: char)
    requires
        in_symbol(c),
    ensures
        !is_ambiguous(c),
{
    let k = choose|k: int| 0 <= k < symbol_chars().len() && symbol_chars()[k] == c;
    assert(!is_ambiguous(symbol_chars()[k])) by {
        reveal_with_fuel(Seq::contains, 1);
        assert(symbol_chars() =~= seq![
            '!', '@', '#', '$', '%', '^', '&', '*', '(', ')', '_', '+', '-', '=', '[', ']', '{', '}',
            '|', ';', ':', ',', '.', '<', '>', '?',
        ]);
    }
}

fn consonant_pool() -> (r: Vec<char>)
    ensures
        r@ == consonant_chars(),
{
    let mut r: Vec<char> = Vec::new();
    r.push('b'); r.push('c'); r.push('d'); r.push('f'); r.push('g'); r.push('h'); r.push('j');
    r.push('k'); r.push('l'); r.push('m'); r.push('n'); r.push('p'); r.push('q'); r.push('r');
    r.push('s'); r.push('t'); r.push('v'); r.push('w'); r.push('x'); r.push('y'); r.push('z');
    assert(r@ =~= consonant_chars());
    r
}

fn vowel_pool() -> (r: Vec<char>)
    ensures
        r@ == vowel_chars(),
{
    let mut r: Vec<char> = Vec::new();
    r.push('a'); r.push('e'); r.push('i'); r.push('o'); r.push('u');
    assert(r@ =~= vowel_chars());
    r
}

/// A random password of `length` characters: a consonant at each even
/// position, a vowel at each odd one.
pub fn generate_pronounceable_password(length: usize) -> (r: String)
    ensures
        r@.len() == length,
        forall|i: int| 0 <= i < length && i % 2 == 0 ==> consonant_chars().contains(#[trigger] r@[i]),
        forall|i: int| 0 <= i < length && i % 2 == 1 ==> vowel_chars().contains(#[trigger] r@[i]),
{
    let cons = consonant_pool();
    let vows = vowel_pool();
    let mut out: Vec<char> = Vec::new();
    let mut i: usize = 0;
    while i < length
        invariant
            i <= length,
            out@.len() == i,
            cons@ == consonant_chars(),
            vows@ == vowel_chars(),
            forall|k: int| 0 <= k < i && k % 2 == 0 ==> consonant_chars().contains(#[trigger] out@[k]),
            forall|k: int| 0 <= k < i && k % 2 == 1 ==> vowel_chars().contains(#[trigger] out@[k]),
        decreases length - i,
    {
        if i % 2 == 0 {
            out.push(draw(&cons));
        } else {
            out.push(draw(&vows));
        }
        i = i + 1;
    }
    chars_to_string(&out)
}

} // verus!
