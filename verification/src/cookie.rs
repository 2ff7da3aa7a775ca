//! Cookies: parsing the `Cookie` request header, and what a cookie that a
//! response sets must provide.
use vstd::prelude::*;
use crate::clock::{subsecond, timestamp_in_range};
use crate::string_map::StringMap;
use crate::text::{
    chars_of, find_char, is_ws, lemma_find_char, split_char, split_chars, trim, trim_end, trim_start,
    trimmed, trimmed_string,
};

verus! {

/// What one `name=value` token of a `Cookie` header contributes to the map
/// built so far: a token that is not exactly one `=` between two parts is
/// skipped; otherwise the trimmed name gets the trimmed value.
pub open spec fn add_cookie_token(m: Map<Seq<char>, Seq<char>>, token: Seq<char>) -> Map<
    Seq<char>,
    Seq<char>,
> {
    let pair = split_char(trim(token), '=');
    if pair.len() == 2 {
        m.insert(trim(pair[0]), trim(pair[1]))
    } else {
        m
    }
}

/// The map built from a list of tokens, later tokens winning.
pub open spec fn cookies_from_tokens(tokens: Seq<Seq<char>>) -> Map<Seq<char>, Seq<char>>
    decreases tokens.len(),
{
    if tokens.len() == 0 {
        Map::empty()
    } else {
        add_cookie_token(cookies_from_tokens(tokens.drop_last()), tokens.last())
    }
}

/// The cookies of a `Cookie` header: the trimmed header split at `;`.
pub open spec fn parse_spec(cookie_string: Seq<char>) -> Map<Seq<char>, Seq<char>> {
    cookies_from_tokens(split_char(trim(cookie_string), ';'))
}

/// Parses the value of a `Cookie` header into a map from cookie name to value.
pub fn parse(cookie_string: &str) -> (result: StringMap)
    ensures
        result@ == parse_spec(cookie_string@),
{
    let mut result = StringMap::new();
    let chars = chars_of(cookie_string);
    let whole = trimmed(chars.as_slice());
    let tokens = split_chars(whole.as_slice(), ';');
    let ghost spec_tokens = split_char(trim(cookie_string@), ';');
    let mut i: usize = 0;
    assert(spec_tokens.take(0) =~= Seq::<Seq<char>>::empty());
    while i < tokens.len()
        invariant
            i <= tokens@.len() == spec_tokens.len(),
            spec_tokens == split_char(trim(cookie_string@), ';'),
            forall|k: int| 0 <= k < tokens@.len() ==> #[trigger] tokens@[k]@ == spec_tokens[k],
            result@ == cookies_from_tokens(spec_tokens.take(i as int)),
        decreases tokens.len() - i,
    {
        let token = trimmed(tokens[i].as_slice());
        let pair = split_chars(token.as_slice(), '=');
        assert(spec_tokens.take(i + 1).drop_last() =~= spec_tokens.take(i as int));
        assert(tokens@[i as int]@ == spec_tokens[i as int]);
        if pair.len() == 2 {
            let name = trimmed_string(pair[0].as_slice());
            let value = trimmed_string(pair[1].as_slice());
            result.insert(name, value);
        }
        i = i + 1;
    }
    assert(spec_tokens.take(tokens@.len() as int) =~= spec_tokens);
    result
}

/// Whether a cookie name or value comes back unchanged from a `Cookie`
/// header: it holds no `;` and no `=`, and does not start or end with
/// whitespace.
pub open spec fn cookie_text_ok(s: Seq<char>) -> bool {
    &&& forall|j: int| 0 <= j < s.len() ==> s[j] != ';' && s[j] != '='
    &&& s.len() > 0 ==> !is_ws(s[0]) && !is_ws(s.last())
}

proof fn lemma_trim_clean(s: Seq<char>)
    requires
        s.len() > 0 ==> !is_ws(s[0]) && !is_ws(s.last()),
    ensures
        trim(s) == s,
{
    assert(trim_start(s) == s);
    assert(trim_end(s) == s);
}

proof fn lemma_split_absent(s: Seq<char>, c: char)
    requires
        forall|j: int| 0 <= j < s.len() ==> s[j] != c,
    ensures
        split_char(s, c) == seq![s],
{
    lemma_find_char(s, c, s.len() as int);
}

/// A `Cookie` header that sends back one cookie, `name=value`, parses to
/// that cookie alone.
pub proof fn lemma_cookie_roundtrip(name: Seq<char>, value: Seq<char>)
    requires
        cookie_text_ok(name),
        cookie_text_ok(value),
    ensures
        parse_spec(name + "="@ + value) == map![name => value],
{
    reveal_strlit("=");
    let s = name + "="@ + value;
    assert(s[name.len() as int] == '=');
    assert forall|j: int| 0 <= j < s.len() implies s[j] != ';' by {
        if j < name.len() {
            assert(s[j] == name[j]);
        } else if j > name.len() {
            assert(s[j] == value[j - name.len() - 1]);
        }
    }
    assert(s[0] == if name.len() > 0 { name[0] } else { '=' });
    assert(s.last() == if value.len() > 0 { value.last() } else { '=' });
    lemma_trim_clean(s);
    lemma_split_absent(s, ';');
    let tokens = seq![s];
    assert(tokens.drop_last() =~= Seq::<Seq<char>>::empty());
    assert forall|j: int| 0 <= j < name.len() implies s[j] != '=' by {
        assert(s[j] == name[j]);
    }
    lemma_find_char(s, '=', name.len() as int);
    assert(s.take(name.len() as int) =~= name);
    assert(s.skip(name.len() as int + 1) =~= value);
    lemma_split_absent(value, '=');
    assert(split_char(s, '=') =~= seq![name, value]);
    lemma_trim_clean(name);
    lemma_trim_clean(value);
    assert(cookies_from_tokens(tokens.drop_last()) == Map::<Seq<char>, Seq<char>>::empty());
    assert(tokens.last() == s);
    assert(add_cookie_token(Map::empty(), s) == Map::<Seq<char>, Seq<char>>::empty().insert(
        name,
        value,
    ));
    assert(cookies_from_tokens(tokens) == add_cookie_token(Map::empty(), s));
    assert(parse_spec(s) == cookies_from_tokens(tokens));
    assert(map![name => value] =~= Map::<Seq<char>, Seq<char>>::empty().insert(name, value));
}

/// A cookie that a response can set. Writing it to the cookie jar is left
/// to the caller.
pub trait Cookie {
    /// The cookie's name.
    spec fn cookie_name(&self) -> Seq<char>;

    /// The cookie's value.
    spec fn cookie_value(&self) -> Seq<char>;

    /// When the cookie expires, if it does: a timestamp and the nanoseconds
    /// past it.
    spec fn expiry(&self) -> Option<(int, u32)>;

    /// Whether the cookie's expiry can be computed: when it has one, its
    /// timestamp lies in the range of timestamps and its nanoseconds are a
    /// fraction of a second.
    spec fn expiry_defined(&self) -> bool;

    fn name(&self) -> (r: &str)
        ensures
            r@ == self.cookie_name(),
    ;

    fn value(&self) -> (r: &str)
        ensures
            r@ == self.cookie_value(),
    ;

    /// How long the cookie lives, in seconds, if it expires.
    fn max_age(&self) -> (r: Option<i64>);

    fn get_expiry(&self) -> (r: Option<(i64, u32)>)
        requires
            self.expiry_defined(),
        ensures
            r matches Some((t, n)) ==> self.expiry() == Some((t as int, n)) && timestamp_in_range(
                t as int,
            ) && subsecond(n),
            r is None ==> self.expiry() is None,
    ;
}

} // verus!
