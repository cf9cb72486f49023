use vstd::prelude::*;
use vstd::string::*;

use crate::error::ConfigError;
use crate::headers::texts;

verus! {

/// The characters an HTTP method name may hold: the token characters that the `http`
/// crate accepts.
pub open spec fn method_char(c: char) -> bool {
    c == '!' || c == '*' || c == '+' || c == '-' || c == '.' || ('0' <= c && c <= '9') || (
    'A' <= c && c <= 'Z') || c == '^' || c == '_' || c == '`' || ('a' <= c && c <= 'z') || c
        == '|' || c == '~'
}

/// Whether `s` names an HTTP method: non-empty, of method characters alone.
pub open spec fn method_token(s: Seq<char>) -> bool {
    s.len() > 0 && forall|k: int| 0 <= k < s.len() ==> method_char(#[trigger] s[k])
}

/// `c` with an ASCII lower-case letter turned to upper case.
pub open spec fn upper_char(c: char) -> char {
    if 'a' <= c && c <= 'z' {
        ((c as u32) - 32) as char
    } else {
        c
    }
}

/// `s` with every ASCII lower-case letter turned to upper case.
pub open spec fn ascii_upper(s: Seq<char>) -> Seq<char> {
    s.map_values(|c: char| upper_char(c))
}

/// Relies on actix_web::http::Method::from_str (the `http` crate's), which accepts a
/// non-empty string of method characters and nothing else.
#[verifier::external_body]
fn is_http_method(s: &str) -> (r: bool)
    ensures
        r == method_token(s@),
{
    <actix_web::http::Method as std::str::FromStr>::from_str(s).is_ok()
}

/// Relies on str::to_ascii_uppercase: each ASCII lower-case letter becomes its upper-case
/// letter and every other character stays as it is.
#[verifier::external_body]
fn ascii_uppercase(s: &str) -> (r: String)
    ensures
        r@ == ascii_upper(s@),
{
    s.to_ascii_uppercase()
}

/// Order of texts: by the first differing character, a proper prefix first.
pub open spec fn text_lt(a: Seq<char>, b: Seq<char>) -> bool
    decreases a.len(),
{
    if b.len() == 0 {
        false
    } else if a.len() == 0 {
        true
    } else if a[0] != b[0] {
        a[0] < b[0]
    } else {
        text_lt(a.drop_first(), b.drop_first())
    }
}

pub proof fn lemma_text_lt_irreflexive(a: Seq<char>)
    ensures
        !text_lt(a, a),
    decreases a.len(),
{
    if a.len() > 0 {
        lemma_text_lt_irreflexive(a.drop_first());
    }
}

/// Texts strictly sorted are distinct.
pub proof fn lemma_sorted_distinct(s: Seq<Seq<char>>)
    requires
        strictly_sorted(s),
    ensures
        forall|i: int, j: int| 0 <= i < j < s.len() ==> s[i] != s[j],
{
    assert forall|i: int, j: int| 0 <= i < j < s.len() implies s[i] != s[j] by {
        assert(text_lt(s[i], s[j]));
        lemma_text_lt_irreflexive(s[i]);
    }
}

proof fn lemma_text_lt_transitive(a: Seq<char>, b: Seq<char>, c: Seq<char>)
    requires
        text_lt(a, b),
        text_lt(b, c),
    ensures
        text_lt(a, c),
    decreases a.len(),
{
    if a.len() > 0 && b.len() > 0 && c.len() > 0 && a[0] == b[0] && b[0] == c[0] {
        lemma_text_lt_transitive(a.drop_first(), b.drop_first(), c.drop_first());
    }
}

proof fn lemma_text_lt_total(a: Seq<char>, b: Seq<char>)
    requires
        a != b,
    ensures
        text_lt(a, b) || text_lt(b, a),
    decreases a.len(),
{
    if a.len() > 0 && b.len() > 0 && a[0] == b[0] {
        if a.drop_first() == b.drop_first() {
            assert(a =~= seq![a[0]] + a.drop_first());
            assert(b =~= seq![b[0]] + b.drop_first());
        }
        lemma_text_lt_total(a.drop_first(), b.drop_first());
    } else if a.len() == 0 && b.len() == 0 {
        assert(a =~= b);
    }
}

/// Whether `a` comes before `b` in the order of texts.
fn text_less(a: &str, b: &str) -> (r: bool)
    ensures
        r == text_lt(a@, b@),
{
    let la = a.unicode_len();
    let lb = b.unicode_len();
    let mut i: usize = 0;
    assert(a@.subrange(0, la as int) =~= a@);
    assert(b@.subrange(0, lb as int) =~= b@);
    while i < la && i < lb
        invariant
            i <= la,
            i <= lb,
            la == a@.len(),
            lb == b@.len(),
            text_lt(a@, b@) == text_lt(a@.subrange(i as int, la as int), b@.subrange(i as int, lb as int)),
        decreases la - i,
    {
        let ca = a.get_char(i);
        let cb = b.get_char(i);
        let ghost sa = a@.subrange(i as int, la as int);
        let ghost sb = b@.subrange(i as int, lb as int);
        assert(sa[0] == ca && sb[0] == cb);
        if ca != cb {
            return ca < cb;
        }
        assert(sa.drop_first() =~= a@.subrange(i + 1, la as int));
        assert(sb.drop_first() =~= b@.subrange(i + 1, lb as int));
        i = i + 1;
    }
    assert(a@.subrange(0, la as int) =~= a@);
    i < lb
}

/// The method `s` names, in upper case, or `InvalidMethod` with `s` when it names none.
pub fn validate_convert_method(s: &str) -> (r: Result<String, ConfigError>)
    ensures
        method_token(ascii_upper(s@)) ==> r is Ok && r->Ok_0@ == ascii_upper(s@),
        !method_token(ascii_upper(s@)) ==> (r matches Err(ConfigError::InvalidMethod(t)) && t@
            == s@),
{
    let m = ascii_uppercase(s);
    if is_http_method(m.as_str()) {
        Ok(m)
    } else {
        Err(ConfigError::InvalidMethod(String::from_str(s)))
    }
}

/// Strictly increasing in the order of texts: sorted, each text once.
pub open spec fn strictly_sorted(s: Seq<Seq<char>>) -> bool {
    forall|i: int, j: int| 0 <= i < j < s.len() ==> text_lt(#[trigger] s[i], #[trigger] s[j])
}

/// Adds `m` to a strictly sorted vector of texts unless it holds it already.
fn insert_sorted(v: &mut Vec<String>, m: String)
    requires
        strictly_sorted(texts(old(v)@)),
    ensures
        strictly_sorted(texts(final(v)@)),
        texts(final(v)@).to_set() == texts(old(v)@).to_set().insert(m@),
{
    let ghost old_texts = texts(v@);
    let mut j: usize = 0;
    while j < v.len() && text_less(v[j].as_str(), m.as_str())
        invariant
            j <= v@.len(),
            texts(v@) == old_texts,
            strictly_sorted(texts(v@)),
            forall|k: int| 0 <= k < j ==> text_lt(#[trigger] texts(v@)[k], m@),
        decreases v@.len() - j,
    {
        j = j + 1;
    }
    if j < v.len() && v[j] == m {
        assert(texts(v@)[j as int] == m@);
        assert(texts(v@).to_set() =~= texts(v@).to_set().insert(m@));
        return ;
    }
    proof {
        if j < v@.len() {
            assert(texts(v@)[j as int] == v@[j as int]@);
            lemma_text_lt_total(m@, v@[j as int]@);
        }
    }
    let ghost before = v@;
    v.insert(j, m);
    let ghost t = texts(v@);
    assert(t =~= old_texts.insert(j as int, m@));
    assert forall|a: int, b: int| 0 <= a < b < t.len() implies text_lt(
        #[trigger] t[a],
        #[trigger] t[b],
    ) by {
        if b == j {
            assert(t[a] == old_texts[a]);
        } else if a == j {
            assert(t[b] == old_texts[b - 1]);
            if b - 1 > j {
                lemma_text_lt_transitive(m@, old_texts[j as int], old_texts[b - 1]);
            }
        } else {
            let a0 = if a < j { a } else { a - 1 };
            let b0 = if b < j { b } else { b - 1 };
            assert(t[a] == old_texts[a0]);
            assert(t[b] == old_texts[b0]);
        }
    }
    assert(t.to_set() =~= old_texts.to_set().insert(m@)) by {
        assert forall|x: Seq<char>| t.to_set().contains(x) <==> old_texts.to_set().insert(
            m@,
        ).contains(x) by {
            if t.to_set().contains(x) {
                let k = choose|k: int| 0 <= k < t.len() && t[k] == x;
                if k < j {
                    assert(old_texts[k] == x);
                } else if k > j {
                    assert(old_texts[k - 1] == x);
                }
            }
            if old_texts.to_set().contains(x) {
                let k = choose|k: int| 0 <= k < old_texts.len() && old_texts[k] == x;
                if k < j {
                    assert(t[k] == x);
                } else {
                    assert(t[k + 1] == x);
                }
            }
            if x == m@ {
                assert(t[j as int] == x);
            }
        }
    }
}

/// The upper-case methods that `methods` names, sorted, each once; or `InvalidMethod`
/// with the first entry that names no method.
pub fn validate_convert_methods(methods: &Vec<String>) -> (r: Result<Vec<String>, ConfigError>)
    ensures
        (forall|i: int| 0 <= i < methods@.len() ==> method_token(ascii_upper(#[trigger] methods@[i]@)))
            ==> r is Ok && strictly_sorted(texts(r->Ok_0@)) && texts(r->Ok_0@).to_set()
            == methods@.map_values(|m: String| ascii_upper(m@)).to_set(),
        !(forall|i: int| 0 <= i < methods@.len() ==> method_token(ascii_upper(#[trigger] methods@[i]@)))
            ==> exists|i: int|
            0 <= i < methods@.len() && !method_token(ascii_upper(methods@[i]@)) && (forall|j: int|
                0 <= j < i ==> method_token(ascii_upper(#[trigger] methods@[j]@))) && (r matches Err(
                ConfigError::InvalidMethod(t),
            ) && t@ == #[trigger] methods@[i]@),
{
    let mut out: Vec<String> = Vec::new();
    let ghost upper = methods@.map_values(|m: String| ascii_upper(m@));
    let mut i: usize = 0;
    while i < methods.len()
        invariant
            i <= methods@.len(),
            upper == methods@.map_values(|m: String| ascii_upper(m@)),
            strictly_sorted(texts(out@)),
            texts(out@).to_set() == upper.subrange(0, i as int).to_set(),
            forall|j: int| 0 <= j < i ==> method_token(ascii_upper(#[trigger] methods@[j]@)),
        decreases methods@.len() - i,
    {
        match validate_convert_method(methods[i].as_str()) {
            Ok(m) => {
                insert_sorted(&mut out, m);
                assert(upper.subrange(0, i + 1) =~= upper.subrange(0, i as int).push(upper[i as int]));
                proof {
                    upper.subrange(0, i as int).lemma_push_to_set_commute(upper[i as int]);
                }
            },
            Err(e) => {
                return Err(e);
            },
        }
        i = i + 1;
    }
    assert(upper.subrange(0, methods@.len() as int) =~= upper);
    Ok(out)
}

/// Whether `v` holds the text of `s`.
pub fn holds_text(v: &Vec<String>, s: &str) -> (r: bool)
    ensures
        r == texts(v@).contains(s@),
{
    let mut i: usize = 0;
    while i < v.len()
        invariant
            i <= v@.len(),
            forall|k: int| 0 <= k < i ==> v@[k]@ != s@,
        decreases v@.len() - i,
    {
        if text_equal(v[i].as_str(), s) {
            assert(texts(v@)[i as int] == s@);
            return true;
        }
        i = i + 1;
    }
    assert forall|k: int| 0 <= k < texts(v@).len() implies texts(v@)[k] != s@ by {
        assert(texts(v@)[k] == v@[k]@);
    }
    false
}

/// Whether two texts are equal.
pub fn text_equal(a: &str, b: &str) -> (r: bool)
    ensures
        r == (a@ == b@),
{
    let la = a.unicode_len();
    let lb = b.unicode_len();
    if la != lb {
        return false;
    }
    let mut i: usize = 0;
    while i < la
        invariant
            i <= la,
            la == a@.len(),
            lb == b@.len(),
            la == lb,
            forall|k: int| 0 <= k < i ==> a@[k] == b@[k],
        decreases la - i,
    {
        if a.get_char(i) != b.get_char(i) {
            return false;
        }
        i = i + 1;
    }
    assert(a@ =~= b@);
    true
}

} // verus!
