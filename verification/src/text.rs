//! Helpers on strings, stated over their characters.

use vstd::prelude::*;

verus! {

/// Names with their values, in order.
pub type Pairs = Seq<(Seq<char>, Seq<char>)>;

/// What each of the strings holds.
pub open spec fn texts(v: Seq<String>) -> Seq<Seq<char>> {
    v.map_values(|s: String| s@)
}

/// The characters of `s`, in order.
pub fn chars_of(s: &str) -> (v: Vec<char>)
    ensures
        v@ == s@,
{
    let mut v: Vec<char> = Vec::new();
    for c in it: s.chars()
        invariant
            v@ == it.seq().take(it.index() as int),
            it.seq() == s@,
    {
        v.push(c);
    }
    v
}

/// Whether two character vectors hold the same characters.
pub fn chars_eq(a: &Vec<char>, b: &Vec<char>) -> (r: bool)
    ensures
        r == (a@ == b@),
{
    if a.len() != b.len() {
        return false;
    }
    let mut i: usize = 0;
    while i < a.len()
        invariant
            a.len() == b.len(),
            i <= a.len(),
            a@.take(i as int) == b@.take(i as int),
        decreases a.len() - i,
    {
        if a[i] != b[i] {
            return false;
        }
        assert(a@.take(i + 1) == a@.take(i as int).push(a@[i as int]));
        assert(b@.take(i + 1) == b@.take(i as int).push(b@[i as int]));
        i += 1;
    }
    assert(a@ == a@.take(a.len() as int));
    assert(b@ == b@.take(b.len() as int));
    true
}

/// Whether two strings hold the same characters.
pub fn str_eq(a: &str, b: &str) -> (r: bool)
    ensures
        r == (a@ == b@),
{
    let x = chars_of(a);
    let y = chars_of(b);
    chars_eq(&x, &y)
}

/// `needle` stands in `hay` from position `i` on.
pub open spec fn occurs_at(hay: Seq<char>, needle: Seq<char>, i: int) -> bool {
    0 <= i && i + needle.len() <= hay.len() && hay.subrange(i, i + needle.len()) == needle
}

/// `needle` stands somewhere in `hay`.
pub open spec fn contains_text(hay: Seq<char>, needle: Seq<char>) -> bool {
    exists|i: int| occurs_at(hay, needle, i)
}

/// Whether `needle` stands in `hay` from position `i` on.
fn occurs_at_exec(hay: &Vec<char>, needle: &Vec<char>, i: usize) -> (r: bool)
    requires
        i + needle.len() <= hay.len(),
    ensures
        r == occurs_at(hay@, needle@, i as int),
{
    let mut j: usize = 0;
    while j < needle.len()
        invariant
            i + needle.len() <= hay.len(),
            j <= needle.len(),
            hay@.subrange(i as int, i + j) == needle@.take(j as int),
        decreases needle.len() - j,
    {
        if hay[i + j] != needle[j] {
            assert(hay@.subrange(i as int, i + needle.len())[j as int] != needle@[j as int]);
            return false;
        }
        assert(hay@.subrange(i as int, i + j + 1) == hay@.subrange(i as int, i + j).push(
            hay@[i + j],
        ));
        assert(needle@.take(j + 1) == needle@.take(j as int).push(needle@[j as int]));
        j += 1;
    }
    assert(needle@ == needle@.take(needle.len() as int));
    true
}

/// Whether `needle` stands somewhere in `hay`; the empty text stands in
/// every text.
pub fn contains(hay: &str, needle: &str) -> (r: bool)
    ensures
        r == contains_text(hay@, needle@),
{
    let h = chars_of(hay);
    let n = chars_of(needle);
    if n.len() > h.len() {
        return false;
    }
    let last: usize = h.len() - n.len();
    let mut i: usize = 0;
    while i < last
        invariant
            last == h.len() - n.len(),
            n.len() <= h.len(),
            i <= last,
            h@ == hay@,
            n@ == needle@,
            forall|k: int| 0 <= k < i ==> !occurs_at(h@, n@, k),
        decreases last - i,
    {
        if occurs_at_exec(&h, &n, i) {
            return true;
        }
        i += 1;
    }
    occurs_at_exec(&h, &n, last)
}

/// Joins `a`, `sep` and `b` into one string.
pub fn join3(a: &str, sep: &str, b: &str) -> (r: String)
    ensures
        r@ == a@ + sep@ + b@,
{
    let mut r = String::from_str(a);
    r.append(sep);
    r.append(b);
    r
}

/// Whether `c` is white space: a character with the Unicode property
/// `White_Space`.
pub open spec fn is_space(c: char) -> bool {
    ||| '\u{9}' <= c <= '\u{d}'
    ||| c == ' '
    ||| c == '\u{85}'
    ||| c == '\u{a0}'
    ||| c == '\u{1680}'
    ||| '\u{2000}' <= c <= '\u{200a}'
    ||| c == '\u{2028}'
    ||| c == '\u{2029}'
    ||| c == '\u{202f}'
    ||| c == '\u{205f}'
    ||| c == '\u{3000}'
}

/// Whether `c` is white space.
pub fn is_space_char(c: char) -> (r: bool)
    ensures
        r == is_space(c),
{
    (c >= '\u{9}' && c <= '\u{d}') || c == ' ' || c == '\u{85}' || c == '\u{a0}' || c
        == '\u{1680}' || (c >= '\u{2000}' && c <= '\u{200a}') || c == '\u{2028}' || c
        == '\u{2029}' || c == '\u{202f}' || c == '\u{205f}' || c == '\u{3000}'
}

/// The words of `s`: its longest runs of characters that are no white
/// space, in order.
pub open spec fn words(s: Seq<char>) -> Seq<Seq<char>>
    decreases s.len(),
{
    if s.len() == 0 {
        Seq::empty()
    } else {
        let head = words(s.drop_last());
        let c = s.last();
        if is_space(c) {
            head
        } else if s.len() >= 2 && !is_space(s[s.len() - 2]) {
            head.update(head.len() - 1, head.last().push(c))
        } else {
            head.push(seq![c])
        }
    }
}

/// The words of `s`.
pub fn split_whitespace(s: &str) -> (r: Vec<String>)
    ensures
        texts(r@) == words(s@),
{
    let chars = chars_of(s);
    let mut out: Vec<String> = Vec::new();
    let mut start: usize = 0;
    let mut in_word = false;
    let mut i: usize = 0;
    assert(texts(out@) =~= words(s@.take(0)));
    while i < chars.len()
        invariant
            i <= chars.len(),
            chars@ == s@,
            in_word ==> start < i,
            in_word <==> (i > 0 && !is_space(s@[i - 1])),
            words(s@.take(i as int)) == if in_word {
                texts(out@).push(s@.subrange(start as int, i as int))
            } else {
                texts(out@)
            },
        decreases chars.len() - i,
    {
        proof {
            assert(s@.take(i + 1).drop_last() == s@.take(i as int));
            assert(s@.take(i + 1).last() == s@[i as int]);
            if i > 0 {
                assert(s@.take(i + 1)[i - 1] == s@[i - 1]);
            }
        }
        if is_space_char(chars[i]) {
            if in_word {
                let ghost prev = out@;
                out.push(String::from_str(s.substring_char(start, i)));
                assert(texts(out@) =~= texts(prev).push(s@.subrange(start as int, i as int)));
                in_word = false;
            }
        } else {
            if !in_word {
                start = i;
                in_word = true;
                assert(s@.subrange(i as int, i + 1) =~= seq![s@[i as int]]);
            } else {
                assert(s@.subrange(start as int, i + 1) =~= s@.subrange(
                    start as int,
                    i as int,
                ).push(s@[i as int]));
                assert(texts(out@).push(s@.subrange(start as int, i as int)).update(
                    texts(out@).len() as int,
                    s@.subrange(start as int, i + 1),
                ) =~= texts(out@).push(s@.subrange(start as int, i + 1)));
            }
        }
        i += 1;
    }
    assert(s@.take(chars.len() as int) == s@);
    if in_word {
        let ghost prev = out@;
        out.push(String::from_str(s.substring_char(start, chars.len())));
        assert(texts(out@) =~= texts(prev).push(s@.subrange(start as int, chars.len() as int)));
    }
    out
}

/// The entries of `parts` that are not empty, with `sep` between them.
pub open spec fn joined(parts: Seq<Seq<char>>, sep: Seq<char>) -> Seq<char>
    decreases parts.len(),
{
    if parts.len() == 0 {
        Seq::empty()
    } else {
        let head = joined(parts.drop_last(), sep);
        let p = parts.last();
        if p.len() == 0 {
            head
        } else if head.len() == 0 {
            p
        } else {
            head + sep + p
        }
    }
}

/// The entries of `parts` that are not empty, with `sep` between them.
pub fn join_nonempty(parts: &Vec<String>, sep: &str) -> (r: String)
    ensures
        r@ == joined(texts(parts@), sep@),
{
    let mut out = String::new();
    let mut i: usize = 0;
    assert(texts(parts@).take(0) =~= Seq::empty());
    while i < parts.len()
        invariant
            i <= parts.len(),
            out@ == joined(texts(parts@).take(i as int), sep@),
        decreases parts.len() - i,
    {
        proof {
            let all = texts(parts@);
            assert(all.take(i + 1).drop_last() == all.take(i as int));
            assert(all.take(i + 1).last() == parts@[i as int]@);
        }
        if !parts[i].as_str().is_empty() {
            if out.as_str().is_empty() {
                out = parts[i].clone();
            } else {
                out.append(sep);
                out.append(parts[i].as_str());
            }
        }
        i += 1;
    }
    assert(texts(parts@).take(parts.len() as int) == texts(parts@));
    out
}

/// The value that the first entry of `env` with the name `key` gives it.
pub open spec fn env_value(env: Pairs, key: Seq<char>) -> Option<Seq<char>>
    decreases env.len(),
{
    if env.len() == 0 {
        None
    } else if env[0].0 == key {
        Some(env[0].1)
    } else {
        env_value(env.drop_first(), key)
    }
}

/// What a list of name and value pairs holds.
pub open spec fn pair_texts(v: Seq<(String, String)>) -> Pairs {
    v.map_values(|e: (String, String)| (e.0@, e.1@))
}

/// The value of the variable `key` in the environment `env`.
pub fn lookup_env<'a>(env: &'a Vec<(String, String)>, key: &str) -> (r: Option<&'a String>)
    ensures
        match r {
            Some(v) => env_value(pair_texts(env@), key@) == Some(v@),
            None => env_value(pair_texts(env@), key@) is None,
        },
{
    let mut i: usize = 0;
    assert(pair_texts(env@).skip(0) =~= pair_texts(env@));
    while i < env.len()
        invariant
            i <= env.len(),
            env_value(pair_texts(env@), key@) == env_value(pair_texts(env@).skip(i as int), key@),
        decreases env.len() - i,
    {
        proof {
            let all = pair_texts(env@);
            assert(all.skip(i as int).drop_first() =~= all.skip(i + 1));
            assert(all.skip(i as int)[0] == (env@[i as int].0@, env@[i as int].1@));
        }
        if str_eq(env[i].0.as_str(), key) {
            return Some(&env[i].1);
        }
        i += 1;
    }
    None
}

/// Whether `s` begins with a placeholder that ends at position `j`: the
/// characters `${`, a name without `}`, and `}` at `j`.
pub open spec fn token_ends_at(s: Seq<char>, j: int) -> bool {
    &&& 2 <= j < s.len()
    &&& s[0] == '$'
    &&& s[1] == '{'
    &&& s[j] == '}'
    &&& forall|k: int| 2 <= k < j ==> s[k] != '}'
}

/// Where the placeholder that `s` begins with ends, where it begins with
/// one.
pub open spec fn token_end(s: Seq<char>) -> Option<int> {
    if exists|j: int| token_ends_at(s, j) {
        Some(choose|j: int| token_ends_at(s, j))
    } else {
        None
    }
}

/// `s` with every placeholder `${name}` whose name is among `vars`
/// replaced by the value of that name; a value is not expanded again, and
/// any other text stays as it is.
pub open spec fn expanded(s: Seq<char>, vars: Pairs) -> Seq<char>
    decreases s.len(),
{
    if s.len() == 0 {
        Seq::empty()
    } else {
        match token_end(s) {
            Some(j) => if 2 <= j < s.len() {
                match env_value(vars, s.subrange(2, j)) {
                    Some(v) => v + expanded(s.skip(j + 1), vars),
                    None => seq![s[0]] + expanded(s.skip(1), vars),
                }
            } else {
                seq![s[0]] + expanded(s.skip(1), vars)
            },
            None => seq![s[0]] + expanded(s.skip(1), vars),
        }
    }
}

/// Where the placeholder that begins at position `i` of `chars` ends.
fn find_token_end(chars: &Vec<char>, i: usize) -> (r: Option<usize>)
    requires
        i < chars.len(),
    ensures
        match r {
            Some(j) => i + 2 <= j < chars.len() && token_end(chars@.skip(i as int)) == Some(j - i),
            None => token_end(chars@.skip(i as int)) is None,
        },
{
    let ghost s = chars@.skip(i as int);
    if chars.len() - i < 2 || chars[i] != '$' || chars[i + 1] != '{' {
        assert(forall|j: int| !token_ends_at(s, j));
        return None;
    }
    let mut j: usize = i + 2;
    while j < chars.len()
        invariant
            i + 2 <= j <= chars.len(),
            s == chars@.skip(i as int),
            s[0] == '$',
            s[1] == '{',
            forall|k: int| 2 <= k < j - i ==> s[k] != '}',
        decreases chars.len() - j,
    {
        if chars[j] == '}' {
            proof {
                assert(token_ends_at(s, j - i));
                let c = choose|c: int| token_ends_at(s, c);
                assert(c == j - i) by {
                    if c < j - i {
                        assert(s[c] != '}');
                    } else if c > j - i {
                        assert(s[j - i] != '}');
                    }
                }
            }
            return Some(j);
        }
        j += 1;
    }
    assert(forall|c: int| !token_ends_at(s, c));
    None
}

/// `text` with every placeholder `${name}` whose name is among `vars`
/// replaced by the value of that name.
pub fn expand_placeholders(text: &str, vars: &Vec<(String, String)>) -> (r: String)
    ensures
        r@ == expanded(text@, pair_texts(vars@)),
{
    let chars = chars_of(text);
    let mut out = String::new();
    let mut i: usize = 0;
    assert(text@.skip(0) =~= text@);
    while i < chars.len()
        invariant
            i <= chars.len(),
            chars@ == text@,
            out@ + expanded(text@.skip(i as int), pair_texts(vars@)) == expanded(
                text@,
                pair_texts(vars@),
            ),
        decreases chars.len() - i,
    {
        let ghost s = text@.skip(i as int);
        let ghost before = out@;
        let mut step: usize = 1;
        let mut replaced = false;
        match find_token_end(&chars, i) {
            Some(j) => {
                let name = text.substring_char(i + 2, j);
                proof {
                    assert(text@.subrange(i + 2, j as int) =~= s.subrange(2, j - i));
                }
                match lookup_env(vars, name) {
                    Some(v) => {
                        out.append(v.as_str());
                        step = j + 1 - i;
                        replaced = true;
                        proof {
                            assert(s.skip(j + 1 - i) =~= text@.skip(j + 1));
                            assert(before + (v@ + expanded(s.skip(j + 1 - i), pair_texts(vars@)))
                                =~= before + v@ + expanded(text@.skip(j + 1), pair_texts(vars@)));
                        }
                    },
                    None => {},
                }
            },
            None => {},
        }
        if !replaced {
            out.append(text.substring_char(i, i + 1));
            proof {
                assert(text@.subrange(i as int, i + 1) =~= seq![s[0]]);
                assert(s.skip(1) =~= text@.skip(i + 1));
                assert(before + (seq![s[0]] + expanded(s.skip(1), pair_texts(vars@))) =~= before
                    + seq![s[0]] + expanded(text@.skip(i + 1), pair_texts(vars@)));
            }
        }
        i += step;
    }
    assert(text@.skip(chars.len() as int) =~= Seq::<char>::empty());
    assert(out@ + Seq::<char>::empty() =~= out@);
    out
}

} // verus!
