//! The token rewrite of an installed agent's own configuration file: every
//! line that sets the token is replaced by a line holding exactly the
//! quoted new token; every other line, and the line structure, stays as it
//! is. Prompting for the token and reading or writing the file live
//! outside.

use crate::text::{lemma_line_len, line_len, str_eq, trim, trim_str};
use vstd::prelude::*;

verus! {

/// Whether this line sets the token: after surrounding whitespace it starts
/// with the token key and its equals sign.
pub open spec fn is_token_line(line: Seq<char>) -> bool {
    trim(line).len() >= 6 && trim(line).subrange(0, 6) == "token="@
}

/// The line after the rewrite.
pub open spec fn rewrite_line(line: Seq<char>, token: Seq<char>) -> Seq<char> {
    if is_token_line(line) {
        "token=\""@ + token + "\""@
    } else {
        line
    }
}

/// The whole text after the rewrite, line by line.
pub open spec fn rewrite_token_lines(s: Seq<char>, token: Seq<char>) -> Seq<char>
    decreases s.len(),
{
    if s.len() == 0 {
        Seq::empty()
    } else {
        let n = line_len(s) as int;
        if 0 <= n && n < s.len() {
            rewrite_line(s.subrange(0, n), token) + seq!['\n'] + rewrite_token_lines(
                s.subrange(n + 1, s.len() as int),
                token,
            )
        } else {
            rewrite_line(s, token)
        }
    }
}

/// Whether this line sets the token, decided in executable code.
pub fn line_sets_token(line: &str) -> (r: bool)
    ensures
        r == is_token_line(line@),
{
    let t = trim_str(line);
    let n = t.as_str().unicode_len();
    if n < 6 {
        return false;
    }
    let prefix = t.as_str().substring_char(0, 6);
    str_eq(prefix, "token=")
}

/// The configuration text with its token set to `token`.
pub fn update_token_lines(content: &str, token: &str) -> (r: String)
    ensures
        r@ == rewrite_token_lines(content@, token@),
{
    let n = content.unicode_len();
    let mut out = String::new();
    proof {
        assert(content@.subrange(0, n as int) =~= content@);
        assert(out@ + rewrite_token_lines(content@, token@) =~= rewrite_token_lines(
            content@,
            token@,
        ));
    }
    let mut i: usize = 0;
    while i < n
        invariant
            0 <= i <= n,
            n == content@.len(),
            out@ + rewrite_token_lines(content@.subrange(i as int, n as int), token@)
                == rewrite_token_lines(content@, token@),
        decreases n - i,
    {
        let ghost suf = content@.subrange(i as int, n as int);
        let mut j: usize = i;
        while j < n && content.get_char(j) != '\n'
            invariant
                i <= j <= n,
                n == content@.len(),
                line_len(content@.subrange(i as int, n as int)) == (j - i) + line_len(
                    content@.subrange(j as int, n as int),
                ),
            decreases n - j,
        {
            proof {
                let sj = content@.subrange(j as int, n as int);
                assert(sj[0] == content@[j as int]);
                assert(sj.drop_first() =~= content@.subrange(j as int + 1, n as int));
            }
            j = j + 1;
        }
        proof {
            let sj = content@.subrange(j as int, n as int);
            if j < n {
                assert(sj[0] == content@[j as int]);
            }
            assert(line_len(suf) == j - i);
        }
        let line = content.substring_char(i, j);
        let ghost out_pre = out@;
        let ghost rl = rewrite_line(content@.subrange(i as int, j as int), token@);
        if line_sets_token(line) {
            out.append("token=\"");
            out.append(token);
            out.append("\"");
            proof {
                assert(out@ =~= out_pre + rl);
            }
        } else {
            out.append(line);
            proof {
                assert(out@ =~= out_pre + rl);
            }
        }
        proof {
            lemma_line_len(suf);
            assert(suf.subrange(0, (j - i) as int) =~= content@.subrange(i as int, j as int));
        }
        let next_i = if j < n {
            j + 1
        } else {
            n
        };
        if j < n {
            out.append("\n");
        }
        proof {
            reveal_strlit("\n");
            assert("\n"@ =~= seq!['\n']);
            let rest = content@.subrange(next_i as int, n as int);
            if j < n {
                assert(suf.subrange((j - i) as int + 1, suf.len() as int) =~= rest);
                assert(rewrite_token_lines(suf, token@) == rl + seq!['\n'] + rewrite_token_lines(
                    rest,
                    token@,
                ));
                assert(out@ + rewrite_token_lines(rest, token@) =~= out_pre + rewrite_token_lines(
                    suf,
                    token@,
                ));
            } else {
                assert(suf =~= content@.subrange(i as int, j as int));
                assert(rewrite_token_lines(suf, token@) == rl);
                assert(rest.len() == 0);
                assert(out@ + rewrite_token_lines(rest, token@) =~= out_pre + rewrite_token_lines(
                    suf,
                    token@,
                ));
            }
        }
        i = next_i;
    }
    proof {
        assert(content@.subrange(i as int, n as int).len() == 0);
        assert(out@ + Seq::<char>::empty() =~= out@);
    }
    out
}

} // verus!
