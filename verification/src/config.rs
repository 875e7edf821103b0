//! The global configuration: the single persisted default-version setting,
//! kept as one structured record in one file. The record's text form — an
//! object with one `default_version` member holding a string or null — is
//! part of the contract, so encoding and decoding are defined here in full.

use crate::text::{is_space, is_space_char, push_char, str_eq, trim_start};
use crate::Error;
use vstd::prelude::*;

verus! {

/// The persisted global configuration record.
pub struct Config {
    pub default_version: Option<String>,
}

impl View for Config {
    type V = Option<Seq<char>>;

    open spec fn view(&self) -> Option<Seq<char>> {
        match self.default_version {
            Some(v) => Some(v@),
            None => None,
        }
    }
}

impl Default for Config {
    /// The zero-value record: no default version set.
    fn default() -> (c: Config)
        ensures
            c@ == Option::<Seq<char>>::None,
    {
        Config { default_version: None }
    }
}

impl Config {
    /// Set the default version to `id`.
    pub fn set_default(&mut self, id: &str)
        ensures
            final(self)@ == Some(id@),
    {
        self.default_version = Some(id.to_owned());
    }

    /// Clear the default version when it equals `id`; otherwise a no-op.
    /// Used by uninstall so that no dangling default is left behind.
    pub fn clear_default_if(&mut self, id: &str)
        ensures
            final(self)@ == (if old(self)@ == Some(id@) {
                Option::<Seq<char>>::None
            } else {
                old(self)@
            }),
    {
        let clear = match &self.default_version {
            Some(v) => str_eq(v.as_str(), id),
            None => false,
        };
        if clear {
            self.default_version = None;
        }
    }

    /// Encode this record as its persisted text.
    pub fn to_json(&self) -> (r: String)
        ensures
            r@ == config_text(self@),
    {
        let mut out = String::new();
        out.append("{\n  \"default_version\": ");
        proof {
            reveal_strlit("{\n  \"default_version\": ");
            assert("{\n  \"default_version\": "@ =~= head_text());
        }
        match &self.default_version {
            None => {
                out.append("null");
                proof {
                    reveal_strlit("null");
                    assert("null"@ =~= null_chars());
                }
            },
            Some(v) => {
                out.append("\"");
                proof {
                    reveal_strlit("\"");
                    assert("\""@ =~= seq!['"']);
                }
                let n = v.as_str().unicode_len();
                proof {
                    assert(v@.subrange(0, 0) =~= Seq::<char>::empty());
                    assert(out@ =~= head_text() + seq!['"'] + json_escape(v@.subrange(0, 0)));
                }
                let mut i: usize = 0;
                while i < n
                    invariant
                        0 <= i <= n,
                        n == v@.len(),
                        out@ == head_text() + seq!['"'] + json_escape(v@.subrange(0, i as int)),
                    decreases n - i,
                {
                    let ghost pre = v@.subrange(0, i as int);
                    let c = v.as_str().get_char(i);
                    if c == '"' || c == '\\' {
                        push_char(&mut out, '\\');
                    }
                    push_char(&mut out, c);
                    proof {
                        lemma_json_escape_push(pre, c);
                        assert(v@.subrange(0, i as int + 1) =~= pre.push(c));
                        if c == '"' || c == '\\' {
                            assert(out@ =~= head_text() + seq!['"'] + (json_escape(pre) + seq![
                                '\\',
                                c,
                            ]));
                        } else {
                            assert(out@ =~= head_text() + seq!['"'] + (json_escape(pre) + seq![c]));
                        }
                    }
                    i = i + 1;
                }
                out.append("\"");
                proof {
                    assert(v@.subrange(0, n as int) =~= v@);
                }
            },
        }
        out.append("\n}");
        proof {
            reveal_strlit("\n}");
            assert("\n}"@ =~= tail_text());
            assert(out@ =~= config_text(self@));
        }
        out
    }

    /// Decode a record from its persisted text. Returns the parse error
    /// exactly when the text does not match the record grammar.
    #[verifier::rlimit(60)]
    pub fn from_json(s: &str) -> (r: Result<Config, Error>)
        ensures
            parse_config_text(s@) is Some ==> (r is Ok && r->Ok_0@ == parse_config_text(
                s@,
            )->Some_0),
            parse_config_text(s@) is None ==> (r matches Err(e) && e is ConfigParse),
    {
        let n = s.unicode_len();
        proof {
            assert(s@.subrange(0, n as int) =~= s@);
        }
        let i1 = skip_spaces(s, 0);
        if i1 >= n || s.get_char(i1) != '{' {
            return Err(Error::ConfigParse);
        }
        proof {
            assert(s@.subrange(i1 as int, n as int).drop_first() =~= s@.subrange(
                i1 as int + 1,
                n as int,
            ));
        }
        let i2 = skip_spaces(s, i1 + 1);
        let ghost s2 = s@.subrange(i2 as int, n as int);
        if i2 < n && s.get_char(i2) == '}' {
            proof {
                assert(s2.drop_first() =~= s@.subrange(i2 as int + 1, n as int));
            }
            let i3 = skip_spaces(s, i2 + 1);
            if i3 >= n {
                return Ok(Config { default_version: None });
            } else {
                return Err(Error::ConfigParse);
            }
        }
        if n - i2 < 17 {
            return Err(Error::ConfigParse);
        }
        let key = s.substring_char(i2, i2 + 17);
        let key_ok = str_eq(key, "\"default_version\"");
        proof {
            reveal_strlit("\"default_version\"");
            assert("\"default_version\""@ =~= key_quoted());
            assert(s@.subrange(i2 as int, i2 as int + 17) =~= s2.subrange(0, 17));
        }
        if !key_ok {
            return Err(Error::ConfigParse);
        }
        proof {
            assert(s2[0] == key_quoted()[0]);
            assert(s2.subrange(17, s2.len() as int) =~= s@.subrange(i2 as int + 17, n as int));
        }
        let i3 = skip_spaces(s, i2 + 17);
        if i3 >= n || s.get_char(i3) != ':' {
            return Err(Error::ConfigParse);
        }
        proof {
            assert(s@.subrange(i3 as int, n as int).drop_first() =~= s@.subrange(
                i3 as int + 1,
                n as int,
            ));
        }
        let i4 = skip_spaces(s, i3 + 1);
        let ghost s4 = s@.subrange(i4 as int, n as int);
        let value: Option<String>;
        let i5: usize;
        if n - i4 >= 4 && str_eq(s.substring_char(i4, i4 + 4), "null") {
            proof {
                reveal_strlit("null");
                assert("null"@ =~= null_chars());
                assert(s@.subrange(i4 as int, i4 as int + 4) =~= s4.subrange(0, 4));
                assert(s4.subrange(4, s4.len() as int) =~= s@.subrange(i4 as int + 4, n as int));
            }
            value = None;
            i5 = i4 + 4;
        } else if i4 < n && s.get_char(i4) == '"' {
            proof {
                if s4.len() >= 4 && s4.subrange(0, 4) == null_chars() {
                    assert(s4.subrange(0, 4)[0] == s4[0]);
                    assert(false);
                }
                assert(s4.drop_first() =~= s@.subrange(i4 as int + 1, n as int));
            }
            match scan_string(s, i4 + 1) {
                None => {
                    return Err(Error::ConfigParse);
                },
                Some((t, j)) => {
                    value = Some(t);
                    i5 = j;
                },
            }
        } else {
            proof {
                reveal_strlit("null");
                assert("null"@ =~= null_chars());
                if s4.len() >= 4 {
                    assert(s4.subrange(0, 4) =~= s@.subrange(i4 as int, i4 as int + 4));
                }
                if s4.len() > 0 {
                    assert(s4[0] == s@[i4 as int]);
                }
            }
            return Err(Error::ConfigParse);
        }
        let i6 = skip_spaces(s, i5);
        if i6 >= n || s.get_char(i6) != '}' {
            return Err(Error::ConfigParse);
        }
        proof {
            assert(s@.subrange(i6 as int, n as int).drop_first() =~= s@.subrange(
                i6 as int + 1,
                n as int,
            ));
        }
        let i7 = skip_spaces(s, i6 + 1);
        if i7 < n {
            return Err(Error::ConfigParse);
        }
        Ok(Config { default_version: value })
    }
}

/// The opening of the record's text, up to the member's value.
pub open spec fn head_text() -> Seq<char> {
    seq![
        '{',
        '\n',
        ' ',
        ' ',
        '"',
        'd',
        'e',
        'f',
        'a',
        'u',
        'l',
        't',
        '_',
        'v',
        'e',
        'r',
        's',
        'i',
        'o',
        'n',
        '"',
        ':',
        ' ',
    ]
}

/// The member's name in quotes.
pub open spec fn key_quoted() -> Seq<char> {
    seq!['"', 'd', 'e', 'f', 'a', 'u', 'l', 't', '_', 'v', 'e', 'r', 's', 'i', 'o', 'n', '"']
}

/// The literal for an absent value.
pub open spec fn null_chars() -> Seq<char> {
    seq!['n', 'u', 'l', 'l']
}

/// The closing of the record's text.
pub open spec fn tail_text() -> Seq<char> {
    seq!['\n', '}']
}

/// A string's characters with quotes and backslashes escaped.
pub open spec fn json_escape(s: Seq<char>) -> Seq<char>
    decreases s.len(),
{
    if s.len() == 0 {
        Seq::empty()
    } else {
        (if s[0] == '"' || s[0] == '\\' {
            seq!['\\', s[0]]
        } else {
            seq![s[0]]
        }) + json_escape(s.drop_first())
    }
}

proof fn lemma_json_escape_push(s: Seq<char>, c: char)
    ensures
        json_escape(s.push(c)) == json_escape(s) + (if c == '"' || c == '\\' {
            seq!['\\', c]
        } else {
            seq![c]
        }),
    decreases s.len(),
{
    let tail = if c == '"' || c == '\\' {
        seq!['\\', c]
    } else {
        seq![c]
    };
    if s.len() == 0 {
        assert(s.push(c)[0] == c);
        assert(s.push(c).drop_first() =~= Seq::<char>::empty());
        assert(json_escape(s.push(c)) == tail + json_escape(Seq::<char>::empty()));
        assert(json_escape(Seq::<char>::empty()) == Seq::<char>::empty());
        assert(tail + Seq::<char>::empty() =~= Seq::<char>::empty() + tail);
        assert(json_escape(s) == Seq::<char>::empty());
    } else {
        lemma_json_escape_push(s.drop_first(), c);
        assert(s.push(c)[0] == s[0]);
        assert(s.push(c).drop_first() =~= s.drop_first().push(c));
        let head = if s[0] == '"' || s[0] == '\\' {
            seq!['\\', s[0]]
        } else {
            seq![s[0]]
        };
        assert(json_escape(s.push(c)) == head + json_escape(s.drop_first().push(c)));
        assert(json_escape(s.push(c)) == head + (json_escape(s.drop_first()) + tail));
        assert(json_escape(s) == head + json_escape(s.drop_first()));
        assert(head + (json_escape(s.drop_first()) + tail) =~= (head + json_escape(s.drop_first()))
            + tail);
    }
}

/// The persisted text of a record: pretty-printed, one member, whose value
/// is the quoted escaped string or the null literal.
pub open spec fn config_text(v: Option<Seq<char>>) -> Seq<char> {
    head_text() + (match v {
        None => null_chars(),
        Some(x) => seq!['"'] + json_escape(x) + seq!['"'],
    }) + tail_text()
}

/// The remainder of a quoted string after its opening quote: the unescaped
/// characters and the text after the closing quote, when well-formed.
pub open spec fn parse_string_rest(s: Seq<char>) -> Option<(Seq<char>, Seq<char>)>
    decreases s.len(),
{
    if s.len() == 0 {
        None
    } else if s[0] == '"' {
        Some((Seq::empty(), s.drop_first()))
    } else if s[0] == '\\' {
        if s.len() >= 2 && (s[1] == '"' || s[1] == '\\') {
            match parse_string_rest(s.subrange(2, s.len() as int)) {
                Some((t, rest)) => Some((seq![s[1]] + t, rest)),
                None => None,
            }
        } else {
            None
        }
    } else {
        match parse_string_rest(s.drop_first()) {
            Some((t, rest)) => Some((seq![s[0]] + t, rest)),
            None => None,
        }
    }
}

/// A member value: the null literal or a quoted string, and the text after
/// it.
pub open spec fn parse_value(s: Seq<char>) -> Option<(Option<Seq<char>>, Seq<char>)> {
    if s.len() >= 4 && s.subrange(0, 4) == null_chars() {
        Some((None, s.subrange(4, s.len() as int)))
    } else if s.len() > 0 && s[0] == '"' {
        match parse_string_rest(s.drop_first()) {
            Some((t, rest)) => Some((Some(t), rest)),
            None => None,
        }
    } else {
        None
    }
}

/// The record denoted by a configuration text, or nothing when the text
/// does not match the grammar: an object holding either no member or the
/// one expected member, with any whitespace between tokens.
pub open spec fn parse_config_text(s: Seq<char>) -> Option<Option<Seq<char>>> {
    let s1 = trim_start(s);
    if s1.len() == 0 || s1[0] != '{' {
        None
    } else {
        let s2 = trim_start(s1.drop_first());
        if s2.len() > 0 && s2[0] == '}' {
            if trim_start(s2.drop_first()).len() == 0 {
                Some(None)
            } else {
                None
            }
        } else if s2.len() >= 17 && s2.subrange(0, 17) == key_quoted() {
            let s3 = trim_start(s2.subrange(17, s2.len() as int));
            if s3.len() == 0 || s3[0] != ':' {
                None
            } else {
                match parse_value(trim_start(s3.drop_first())) {
                    None => None,
                    Some((v, s5)) => {
                        let s6 = trim_start(s5);
                        if s6.len() > 0 && s6[0] == '}' && trim_start(s6.drop_first()).len() == 0 {
                            Some(v)
                        } else {
                            None
                        }
                    },
                }
            }
        } else {
            None
        }
    }
}

/// The first index at or after `i` holding no whitespace; the suffix there
/// is the trimmed suffix at `i`.
fn skip_spaces(s: &str, i: usize) -> (r: usize)
    requires
        i <= s@.len(),
    ensures
        i <= r <= s@.len(),
        s@.subrange(r as int, s@.len() as int) == trim_start(
            s@.subrange(i as int, s@.len() as int),
        ),
        r < s@.len() ==> !is_space(s@[r as int]),
    decreases s@.len() - i,
{
    let n = s.unicode_len();
    let mut j: usize = i;
    while j < n && is_space_char(s.get_char(j))
        invariant
            i <= j <= n,
            n == s@.len(),
            trim_start(s@.subrange(i as int, n as int)) == trim_start(
                s@.subrange(j as int, n as int),
            ),
        decreases n - j,
    {
        proof {
            let sj = s@.subrange(j as int, n as int);
            assert(sj[0] == s@[j as int]);
            assert(sj.drop_first() =~= s@.subrange(j as int + 1, n as int));
        }
        j = j + 1;
    }
    proof {
        let sj = s@.subrange(j as int, n as int);
        if j < n {
            assert(sj[0] == s@[j as int]);
        }
        assert(trim_start(s@.subrange(i as int, n as int)) == sj);
    }
    j
}

/// Scan a quoted string's remainder starting at `i` (just after the opening
/// quote): the unescaped content and the index after the closing quote.
fn scan_string(s: &str, i: usize) -> (r: Option<(String, usize)>)
    requires
        i <= s@.len(),
    ensures
        match r {
            Some((t, j)) => i <= j && j <= s@.len() && parse_string_rest(
                s@.subrange(i as int, s@.len() as int),
            ) == Some((t@, s@.subrange(j as int, s@.len() as int))),
            None => parse_string_rest(s@.subrange(i as int, s@.len() as int)) is None,
        },
{
    let n = s.unicode_len();
    let mut out = String::new();
    let mut cur: usize = i;
    proof {
        assert(out@ + Seq::<char>::empty() =~= out@);
    }
    loop
        invariant
            i <= cur <= n,
            n == s@.len(),
            match parse_string_rest(s@.subrange(cur as int, n as int)) {
                Some((t, rest)) => parse_string_rest(s@.subrange(i as int, n as int)) == Some(
                    (out@ + t, rest),
                ),
                None => parse_string_rest(s@.subrange(i as int, n as int)) is None,
            },
        decreases n - cur,
    {
        let ghost sc = s@.subrange(cur as int, n as int);
        if cur >= n {
            return None;
        }
        let c = s.get_char(cur);
        proof {
            assert(sc[0] == s@[cur as int]);
        }
        if c == '"' {
            proof {
                assert(sc.drop_first() =~= s@.subrange(cur as int + 1, n as int));
                assert(out@ + Seq::<char>::empty() =~= out@);
            }
            return Some((out, cur + 1));
        }
        if c == '\\' {
            if cur + 1 >= n {
                proof {
                    assert(sc.len() < 2);
                }
                return None;
            }
            let c2 = s.get_char(cur + 1);
            proof {
                assert(sc[1] == s@[cur as int + 1]);
            }
            if c2 == '"' || c2 == '\\' {
                let ghost pre = out@;
                push_char(&mut out, c2);
                proof {
                    assert(sc.subrange(2, sc.len() as int) =~= s@.subrange(
                        cur as int + 2,
                        n as int,
                    ));
                    assert forall|t: Seq<char>| true implies pre + (seq![c2] + t) =~= (pre.push(c2)
                        + t) by {}
                }
                cur = cur + 2;
            } else {
                return None;
            }
        } else {
            let ghost pre = out@;
            push_char(&mut out, c);
            proof {
                assert(sc.drop_first() =~= s@.subrange(cur as int + 1, n as int));
                assert forall|t: Seq<char>| true implies pre + (seq![c] + t) =~= (pre.push(c)
                    + t) by {}
            }
            cur = cur + 1;
        }
    }
}

/// Law: encoding a record and decoding the text yields the very same
/// record, whatever the version string holds.
pub proof fn lemma_config_roundtrip(v: Option<Seq<char>>)
    ensures
        parse_config_text(config_text(v)) == Some(v),
{
    let t = config_text(v);
    let value = match v {
        None => null_chars(),
        Some(x) => seq!['"'] + json_escape(x) + seq!['"'],
    };
    let lv = value.len() as int;
    assert(t.len() == 23 + lv + 2);
    assert forall|k: int| 0 <= k < 23 implies t[k] == head_text()[k] by {}
    // the object opens immediately
    assert(!is_space(t[0]));
    assert(trim_start(t) == t);
    assert(t[0] == '{');
    // whitespace up to the quoted member name
    assert(trim_start(t.drop_first()) == t.subrange(4, t.len() as int)) by {
        assert(t.drop_first() =~= t.subrange(1, t.len() as int));
        lemma_trim_start_between(t, 1, 4);
        assert(!is_space(t[4]));
        assert(trim_start(t.subrange(4, t.len() as int)) == t.subrange(4, t.len() as int));
    }
    let s2 = t.subrange(4, t.len() as int);
    assert(s2[0] == '"');
    assert(s2.len() >= 17 + 2);
    assert(s2.subrange(0, 17) =~= key_quoted());
    assert(s2.subrange(17, s2.len() as int) =~= t.subrange(21, t.len() as int));
    assert(t[21] == ':');
    assert(!is_space(t[21]));
    let s3 = t.subrange(21, t.len() as int);
    assert(trim_start(s3) == s3);
    assert(s3[0] == ':');
    assert(s3.drop_first() =~= t.subrange(22, t.len() as int));
    assert(t[22] == ' ');
    assert(trim_start(t.subrange(22, t.len() as int)) == t.subrange(23, t.len() as int)) by {
        lemma_trim_start_between(t, 22, 23);
        assert(t[23] == value[0]);
        assert(!is_space(value[0])) by {
            match v {
                None => {
                    assert(value[0] == 'n');
                },
                Some(x) => {
                    assert(value[0] == '"');
                },
            }
        }
    }
    let s4 = t.subrange(23, t.len() as int);
    assert(s4 =~= value + tail_text());
    match v {
        None => {
            assert(s4.subrange(0, 4) =~= null_chars());
            assert(s4.len() >= 4);
            assert(parse_value(s4) == Some(
                (Option::<Seq<char>>::None, s4.subrange(4, s4.len() as int)),
            ));
            assert(s4.subrange(4, s4.len() as int) =~= tail_text());
        },
        Some(x) => {
            assert(s4[0] == '"');
            if s4.len() >= 4 && s4.subrange(0, 4) == null_chars() {
                assert(s4.subrange(0, 4)[0] == s4[0]);
                assert(false);
            }
            lemma_parse_escaped(x, tail_text());
            assert(s4.drop_first() =~= json_escape(x) + seq!['"'] + tail_text());
            assert(parse_value(s4) == Some((Some(x), tail_text())));
        },
    }
    // after the value: a line break, the closing brace, the end
    let s5 = tail_text();
    assert(s5[0] == '\n');
    assert(is_space(s5[0]));
    assert(s5.drop_first() =~= seq!['}']);
    assert(trim_start(s5) == seq!['}']) by {
        assert(trim_start(s5) == trim_start(s5.drop_first()));
        assert(!is_space(s5.drop_first()[0]));
    }
    let s6 = seq!['}'];
    assert(s6[0] == '}');
    assert(s6.drop_first() =~= Seq::<char>::empty());
    assert(trim_start(s6.drop_first()).len() == 0);
}

/// Decoding after the opening quote undoes the escaping.
proof fn lemma_parse_escaped(x: Seq<char>, rest: Seq<char>)
    ensures
        parse_string_rest(json_escape(x) + seq!['"'] + rest) == Some((x, rest)),
    decreases x.len(),
{
    let t = json_escape(x) + seq!['"'] + rest;
    if x.len() == 0 {
        assert(t[0] == '"');
        assert(t.drop_first() =~= rest);
        assert(Seq::<char>::empty() =~= x);
    } else {
        let c = x[0];
        lemma_parse_escaped(x.drop_first(), rest);
        if c == '"' || c == '\\' {
            assert(t[0] == '\\');
            assert(t[1] == c);
            assert(t.len() >= 2);
            assert(t.subrange(2, t.len() as int) =~= json_escape(x.drop_first()) + seq!['"']
                + rest);
            assert(seq![c] + x.drop_first() =~= x);
        } else {
            assert(t[0] == c);
            assert(t.drop_first() =~= json_escape(x.drop_first()) + seq!['"'] + rest);
            assert(seq![c] + x.drop_first() =~= x);
        }
    }
}

/// Trimming from `i` crosses the whitespace run up to `j`.
proof fn lemma_trim_start_between(s: Seq<char>, i: int, j: int)
    requires
        0 <= i <= j <= s.len(),
        forall|k: int| i <= k < j ==> is_space(s[k]),
    ensures
        trim_start(s.subrange(i, s.len() as int)) == trim_start(s.subrange(j, s.len() as int)),
    decreases j - i,
{
    if i < j {
        let si = s.subrange(i, s.len() as int);
        assert(si[0] == s[i]);
        assert(si.drop_first() =~= s.subrange(i + 1, s.len() as int));
        lemma_trim_start_between(s, i + 1, j);
    }
}

} // verus!
