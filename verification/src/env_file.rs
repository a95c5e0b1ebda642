//! The `.env` file: rewriting the token lines of its text, and the search for
//! the file itself.

use vstd::prelude::*;
use crate::pattern::string_views;
use crate::text::{
    before_first, chars_of, index_of_char_from, is_first_index, lemma_before_first, str_starts_with,
};

verus! {

broadcast use vstd::string::group_string_axioms;

/// A line without the carriage return that may precede its newline.
pub open spec fn strip_cr(line: Seq<char>) -> Seq<char> {
    if line.len() > 0 && line.last() == '\r' {
        line.drop_last()
    } else {
        line
    }
}

/// The lines of a text as `str::lines` yields them: split at `\n`, a `\r` just
/// before the `\n` dropped, and no empty last line after a final `\n`.
pub open spec fn text_lines(s: Seq<char>) -> Seq<Seq<char>>
    decreases s.len(),
{
    let head = before_first(s, '\n');
    if s.len() == 0 {
        seq![]
    } else if head.len() < s.len() {
        seq![strip_cr(head)] + text_lines(s.skip(head.len() + 1 as int))
    } else {
        seq![s]
    }
}

/// Lines joined by `\n`, as `[String]::join("\n")` does.
pub open spec fn join_lines(lines: Seq<Seq<char>>) -> Seq<char>
    decreases lines.len(),
{
    if lines.len() == 0 {
        seq![]
    } else if lines.len() == 1 {
        lines[0]
    } else {
        join_lines(lines.drop_last()) + seq!['\n'] + lines.last()
    }
}

/// The key that starts the access token's line.
pub open spec fn access_key() -> Seq<char> {
    "LINEAR_AGENT_TOKEN="@
}

/// The key that starts the refresh token's line.
pub open spec fn refresh_key() -> Seq<char> {
    "LINEAR_REFRESH_TOKEN="@
}

/// A line after the access token has been put in.
pub open spec fn with_access(line: Seq<char>, access: Seq<char>) -> Seq<char> {
    if access_key().is_prefix_of(line) {
        access_key() + access
    } else {
        line
    }
}

/// A line after both tokens have been put in.
pub open spec fn rewrite_line(
    line: Seq<char>,
    access: Seq<char>,
    refresh: Option<Seq<char>>,
) -> Seq<char> {
    let l = with_access(line, access);
    match refresh {
        Some(rt) => if refresh_key().is_prefix_of(l) {
            refresh_key() + rt
        } else {
            l
        },
        None => l,
    }
}

pub open spec fn rewrite_all(
    lines: Seq<Seq<char>>,
    access: Seq<char>,
    refresh: Option<Seq<char>>,
) -> Seq<Seq<char>> {
    lines.map_values(|l: Seq<char>| rewrite_line(l, access, refresh))
}

/// Some line holds the access token.
pub open spec fn has_access_line(lines: Seq<Seq<char>>) -> bool {
    exists|j: int| 0 <= j < lines.len() && access_key().is_prefix_of(#[trigger] lines[j])
}

/// Some line, once the access token is put in, holds the refresh token.
pub open spec fn has_refresh_line(lines: Seq<Seq<char>>, access: Seq<char>) -> bool {
    exists|j: int|
        0 <= j < lines.len() && refresh_key().is_prefix_of(with_access(#[trigger] lines[j], access))
}

/// The lines of the updated file: every token line rewritten, and a line
/// appended for each token that had none.
pub open spec fn updated_lines(
    lines: Seq<Seq<char>>,
    access: Seq<char>,
    refresh: Option<Seq<char>>,
) -> Seq<Seq<char>> {
    let rewritten = rewrite_all(lines, access, refresh);
    let with_access_line = if has_access_line(lines) {
        rewritten
    } else {
        rewritten.push(access_key() + access)
    };
    match refresh {
        Some(rt) => if has_refresh_line(lines, access) {
            with_access_line
        } else {
            with_access_line.push(refresh_key() + rt)
        },
        None => with_access_line,
    }
}

/// The new text of a `.env` file whose text was `content`.
pub open spec fn update_env_spec(
    content: Seq<char>,
    access: Seq<char>,
    refresh: Option<Seq<char>>,
) -> Seq<char> {
    join_lines(updated_lines(text_lines(content), access, refresh)) + seq!['\n']
}

/// The lines of `s`, as `str::lines` yields them.
pub fn split_lines(s: &str) -> (lines: Vec<String>)
    ensures
        string_views(lines@) == text_lines(s@),
{
    let v = chars_of(s);
    let mut lines: Vec<String> = Vec::new();
    let mut p: usize = 0;
    assert(v@.skip(0) =~= v@);
    assert(string_views(lines@) + text_lines(v@.skip(0)) =~= text_lines(v@));
    while p < v.len()
        invariant
            p <= v.len(),
            v@ == s@,
            string_views(lines@) + text_lines(v@.skip(p as int)) == text_lines(v@),
        decreases v.len() - p,
    {
        let j = index_of_char_from(&v, p, '\n');
        let ghost t = v@.skip(p as int);
        proof {
            lemma_before_first(t, '\n', j - p);
        }
        let ghost before = lines@;
        if j == v.len() {
            assert(t.take(j - p) =~= t);
            let line = s.substring_char(p, j).to_string();
            assert(line@ =~= t);
            lines.push(line);
            assert(text_lines(t) == seq![t]);
            assert(v@.skip(j as int) =~= Seq::<char>::empty());
            assert(string_views(lines@) =~= string_views(before) + seq![t]);
            assert(text_lines(v@.skip(j as int)) =~= Seq::<Seq<char>>::empty());
            assert(string_views(lines@) + text_lines(v@.skip(j as int)) =~= string_views(before)
                + text_lines(t));
            p = j;
        } else {
            let end = if j > p && v[j - 1] == '\r' {
                j - 1
            } else {
                j
            };
            let line = s.substring_char(p, end).to_string();
            assert(line@ =~= strip_cr(t.take(j - p)));
            lines.push(line);
            assert(t.skip(j - p + 1) =~= v@.skip(j + 1));
            assert(text_lines(t) == seq![strip_cr(t.take(j - p))] + text_lines(v@.skip(j + 1)));
            assert(string_views(lines@) =~= string_views(before) + seq![strip_cr(t.take(j - p))]);
            assert(string_views(lines@) + text_lines(v@.skip(j + 1)) =~= string_views(before)
                + text_lines(t));
            p = j + 1;
        }
    }
    assert(v@.skip(p as int) =~= Seq::<char>::empty());
    assert(string_views(lines@) + text_lines(v@.skip(p as int)) =~= string_views(lines@));
    lines
}

/// The lines joined by `\n`.
pub fn join_with_newlines(lines: &Vec<String>) -> (s: String)
    ensures
        s@ == join_lines(string_views(lines@)),
{
    proof {
        reveal_strlit("\n");
    }
    let mut s = String::new();
    let mut i: usize = 0;
    while i < lines.len()
        invariant
            i <= lines.len(),
            s@ == join_lines(string_views(lines@).take(i as int)),
            "\n"@ == seq!['\n'],
        decreases lines.len() - i,
    {
        let ghost views = string_views(lines@);
        assert(views.take(i + 1).drop_last() =~= views.take(i as int));
        assert(views.take(i + 1).last() == lines@[i as int]@);
        if i > 0 {
            s.append("\n");
        } else {
            assert(views.take(0) =~= Seq::<Seq<char>>::empty());
        }
        s.append(lines[i].as_str());
        i = i + 1;
    }
    assert(string_views(lines@).take(i as int) =~= string_views(lines@));
    s
}

/// The text of a `.env` file after the tokens are updated: each line that
/// starts with `LINEAR_AGENT_TOKEN=` gets the new access token; when a refresh
/// token is given, each line that starts with `LINEAR_REFRESH_TOKEN=` gets it;
/// a line is appended for a token that had none; lines are joined by `\n`
/// and the text ends with `\n`.
pub fn update_env_content(
    content: &str,
    new_access_token: &str,
    new_refresh_token: Option<&str>,
) -> (updated: String)
    ensures
        updated@ == update_env_spec(
            content@,
            new_access_token@,
            match new_refresh_token {
                Some(rt) => Some(rt@),
                None => None,
            },
        ),
{
    let ghost refresh: Option<Seq<char>> = match new_refresh_token {
        Some(rt) => Some(rt@),
        None => None,
    };
    let ghost access = new_access_token@;
    let lines = split_lines(content);
    let ghost ls = string_views(lines@);
    let mut out: Vec<String> = Vec::new();
    let mut found_access = false;
    let mut found_refresh = false;
    let mut i: usize = 0;
    while i < lines.len()
        invariant
            i <= lines.len(),
            ls == string_views(lines@),
            access == new_access_token@,
            refresh == match new_refresh_token {
                Some(rt) => Some(rt@),
                None => None,
            },
            string_views(out@) == rewrite_all(ls.take(i as int), access, refresh),
            found_access == has_access_line(ls.take(i as int)),
            found_refresh == (refresh is Some && has_refresh_line(ls.take(i as int), access)),
        decreases lines.len() - i,
    {
        let ghost prev = ls.take(i as int);
        let ghost next = ls.take(i + 1);
        let ghost l = ls[i as int];
        assert(next =~= prev.push(l));
        assert(lines@[i as int]@ == l);
        let mut line = lines[i].clone();
        if str_starts_with(line.as_str(), "LINEAR_AGENT_TOKEN=") {
            line = String::from_str("LINEAR_AGENT_TOKEN=").concat(new_access_token);
            found_access = true;
        }
        assert(line@ == with_access(l, access));
        if let Some(rt) = new_refresh_token {
            if str_starts_with(line.as_str(), "LINEAR_REFRESH_TOKEN=") {
                line = String::from_str("LINEAR_REFRESH_TOKEN=").concat(rt);
                found_refresh = true;
            }
        }
        assert(line@ == rewrite_line(l, access, refresh));
        let ghost before = out@;
        out.push(line);
        assert(string_views(out@) =~= string_views(before).push(rewrite_line(l, access, refresh)));
        assert(rewrite_all(next, access, refresh) =~= rewrite_all(prev, access, refresh).push(
            rewrite_line(l, access, refresh),
        ));
        assert(has_access_line(next) == (has_access_line(prev) || access_key().is_prefix_of(l)))
            by {
            if access_key().is_prefix_of(l) {
                assert(next[i as int] == l);
            }
            if has_access_line(prev) {
                let j = choose|j: int| 0 <= j < prev.len() && access_key().is_prefix_of(#[trigger] prev[j]);
                assert(next[j] == prev[j]);
            }
            if has_access_line(next) {
                let j = choose|j: int| 0 <= j < next.len() && access_key().is_prefix_of(#[trigger] next[j]);
                if j < i {
                    assert(prev[j] == next[j]);
                }
            }
        }
        assert(has_refresh_line(next, access) == (has_refresh_line(prev, access)
            || refresh_key().is_prefix_of(with_access(l, access)))) by {
            if refresh_key().is_prefix_of(with_access(l, access)) {
                assert(next[i as int] == l);
            }
            if has_refresh_line(prev, access) {
                let j = choose|j: int|
                    0 <= j < prev.len() && refresh_key().is_prefix_of(
                        with_access(#[trigger] prev[j], access),
                    );
                assert(next[j] == prev[j]);
            }
            if has_refresh_line(next, access) {
                let j = choose|j: int|
                    0 <= j < next.len() && refresh_key().is_prefix_of(
                        with_access(#[trigger] next[j], access),
                    );
                if j < i {
                    assert(prev[j] == next[j]);
                }
            }
        }
        i = i + 1;
    }
    assert(ls.take(i as int) =~= ls);
    if !found_access {
        let ghost before = out@;
        out.push(String::from_str("LINEAR_AGENT_TOKEN=").concat(new_access_token));
        assert(string_views(out@) =~= string_views(before).push(access_key() + access));
    }
    if let Some(rt) = new_refresh_token {
        if !found_refresh {
            let ghost before = out@;
            out.push(String::from_str("LINEAR_REFRESH_TOKEN=").concat(rt));
            assert(string_views(out@) =~= string_views(before).push(refresh_key() + rt@));
        }
    }
    assert(string_views(out@) == updated_lines(text_lines(content@), access, refresh));
    let joined = join_with_newlines(&out);
    proof {
        reveal_strlit("\n");
    }
    joined.concat("\n")
}

/// How many directories, starting with the program's own and going up, are
/// searched for a `.env` file.
pub const ENV_SEARCH_DEPTH: usize = 8;

/// The next place to look for the `.env` file.
#[derive(Debug, Clone, Copy, PartialEq, Eq, Structural)]
pub enum EnvSearchAction {
    /// Look in the directory at the current depth.
    ProbeDirectory,
    /// Stop going up; look in the working directory.
    ProbeWorkingDirectory,
}

/// Decides, before looking at the directory `depth` levels above the
/// program's own (`has_directory` when there is one), whether to look there or
/// in the working directory. Finding a `.env` file ends the search.
pub fn env_search_action(depth: usize, has_directory: bool) -> (action: EnvSearchAction)
    ensures
        action == (if depth < 8 && has_directory {
            EnvSearchAction::ProbeDirectory
        } else {
            EnvSearchAction::ProbeWorkingDirectory
        }),
{
    if depth < ENV_SEARCH_DEPTH && has_directory {
        EnvSearchAction::ProbeDirectory
    } else {
        EnvSearchAction::ProbeWorkingDirectory
    }
}

/// Every line with its final carriage return dropped.
pub open spec fn strip_all(lines: Seq<Seq<char>>) -> Seq<Seq<char>> {
    lines.map_values(|l: Seq<char>| strip_cr(l))
}

/// A token that can stand on a line of its own and be read back as it is.
pub open spec fn is_line_safe(token: Seq<char>) -> bool {
    &&& !token.contains('\n')
    &&& (token.len() == 0 || token.last() != '\r')
}

proof fn lemma_before_first_excludes(s: Seq<char>, c: char)
    ensures
        !before_first(s, c).contains(c),
    decreases s.len(),
{
    if s.len() > 0 && s[0] != c {
        lemma_before_first_excludes(s.drop_first(), c);
        let b = before_first(s, c);
        assert(b == seq![s[0]] + before_first(s.drop_first(), c));
        if b.contains(c) {
            let k = choose|k: int| 0 <= k < b.len() && b[k] == c;
            if k > 0 {
                assert(before_first(s.drop_first(), c)[k - 1] == c);
            }
        }
    }
}

proof fn lemma_text_lines_no_newline(s: Seq<char>)
    ensures
        forall|i: int| 0 <= i < text_lines(s).len() ==> !(#[trigger] text_lines(s)[i]).contains('\n'),
    decreases s.len(),
{
    if s.len() > 0 {
        let head = before_first(s, '\n');
        lemma_before_first_excludes(s, '\n');
        crate::identifier::lemma_before_first_len(s, '\n');
        if head.len() < s.len() {
            let rest = s.skip(head.len() + 1 as int);
            lemma_text_lines_no_newline(rest);
            assert forall|i: int| 0 <= i < text_lines(s).len() implies !(
            #[trigger] text_lines(s)[i]).contains('\n') by {
                if i == 0 {
                    let l = strip_cr(head);
                    if l.contains('\n') {
                        let k = choose|k: int| 0 <= k < l.len() && l[k] == '\n';
                        assert(head[k] == '\n');
                    }
                } else {
                    assert(text_lines(s)[i] == text_lines(rest)[i - 1]);
                }
            }
        } else {
            assert(head =~= s);
        }
    }
}

proof fn lemma_join_first(lines: Seq<Seq<char>>)
    requires
        lines.len() >= 2,
    ensures
        join_lines(lines) == lines[0] + seq!['\n'] + join_lines(lines.drop_first()),
    decreases lines.len(),
{
    let init = lines.drop_last();
    if lines.len() == 2 {
        assert(init.len() == 1);
        assert(lines.drop_first().len() == 1);
        assert(join_lines(lines.drop_first()) == lines[1]);
        assert(join_lines(init) == lines[0]);
        assert(join_lines(lines) =~= lines[0] + seq!['\n'] + lines[1]);
    } else {
        lemma_join_first(init);
        assert(init.drop_first() =~= lines.drop_first().drop_last());
        assert(lines.drop_first().last() == lines.last());
        assert(join_lines(lines.drop_first()) == join_lines(init.drop_first()) + seq!['\n']
            + lines.last());
        assert(join_lines(lines) =~= lines[0] + seq!['\n'] + join_lines(lines.drop_first()));
    }
}

/// Lines joined and ended by newlines read back as themselves, each without a
/// final carriage return.
pub proof fn lemma_read_back(lines: Seq<Seq<char>>)
    requires
        lines.len() > 0,
        forall|i: int| 0 <= i < lines.len() ==> !(#[trigger] lines[i]).contains('\n'),
    ensures
        text_lines(join_lines(lines) + seq!['\n']) == strip_all(lines),
    decreases lines.len(),
{
    let l0 = lines[0];
    assert(!l0.contains('\n'));
    let text = join_lines(lines) + seq!['\n'];
    let rest = if lines.len() >= 2 {
        join_lines(lines.drop_first()) + seq!['\n']
    } else {
        Seq::<char>::empty()
    };
    if lines.len() >= 2 {
        lemma_join_first(lines);
    }
    assert(text =~= l0 + seq!['\n'] + rest);
    assert(is_first_index(text, '\n', l0.len() as int)) by {
        assert forall|j: int| 0 <= j < l0.len() implies text[j] != '\n' by {
            assert(text[j] == l0[j]);
        }
    }
    lemma_before_first(text, '\n', l0.len() as int);
    assert(text.take(l0.len() as int) =~= l0);
    assert(text.skip(l0.len() + 1 as int) =~= rest);
    assert(text_lines(text) == seq![strip_cr(l0)] + text_lines(rest));
    if lines.len() >= 2 {
        let tail = lines.drop_first();
        assert forall|i: int| 0 <= i < tail.len() implies !(#[trigger] tail[i]).contains('\n') by {
            assert(tail[i] == lines[i + 1]);
        }
        lemma_read_back(tail);
        assert(strip_all(lines) =~= seq![strip_cr(l0)] + strip_all(tail));
    } else {
        assert(text_lines(rest) =~= Seq::<Seq<char>>::empty());
        assert(strip_all(lines) =~= seq![strip_cr(l0)]);
    }
}

proof fn lemma_keys_distinct(x: Seq<char>)
    ensures
        !refresh_key().is_prefix_of(access_key() + x),
        !access_key().is_prefix_of(refresh_key() + x),
        access_key().is_prefix_of(access_key() + x),
        refresh_key().is_prefix_of(refresh_key() + x),
        !access_key().contains('\n'),
        !refresh_key().contains('\n'),
        access_key().len() > 0 && access_key().last() == '=',
        refresh_key().len() > 0 && refresh_key().last() == '=',
{
    reveal_strlit("LINEAR_AGENT_TOKEN=");
    reveal_strlit("LINEAR_REFRESH_TOKEN=");
    let ak = access_key();
    let rk = refresh_key();
    assert((ak + x)[7] == 'A');
    assert((rk + x)[7] == 'R');
    assert((rk + x).subrange(0, rk.len() as int)[7] == 'R');
    assert((ak + x).subrange(0, ak.len() as int)[7] == 'A');
    assert((ak + x).subrange(0, ak.len() as int) =~= ak);
    assert((rk + x).subrange(0, rk.len() as int) =~= rk);
}

proof fn lemma_rewrite_idempotent(l: Seq<char>, a: Seq<char>, r: Option<Seq<char>>)
    ensures
        rewrite_line(rewrite_line(l, a, r), a, r) == rewrite_line(l, a, r),
        access_key().is_prefix_of(l) ==> rewrite_line(l, a, r) == access_key() + a,
        access_key().is_prefix_of(rewrite_line(l, a, r)) ==> rewrite_line(l, a, r) == access_key()
            + a,
        r is Some && refresh_key().is_prefix_of(with_access(l, a)) ==> rewrite_line(l, a, r)
            == refresh_key() + r->0,
{
    lemma_keys_distinct(a);
    if let Some(rt) = r {
        lemma_keys_distinct(rt);
    }
}

/// After the update there is a line with the access token and, when one is
/// given, a line with the refresh token; a second update with the same tokens
/// changes no line.
proof fn lemma_updated_lines(lines: Seq<Seq<char>>, a: Seq<char>, r: Option<Seq<char>>)
    ensures
        updated_lines(lines, a, r).contains(access_key() + a),
        r matches Some(rt) ==> updated_lines(lines, a, r).contains(refresh_key() + rt),
        updated_lines(updated_lines(lines, a, r), a, r) == updated_lines(lines, a, r),
        updated_lines(lines, a, r).len() > 0,
{
    let rw = rewrite_all(lines, a, r);
    let u = updated_lines(lines, a, r);
    lemma_keys_distinct(a);
    if let Some(rt) = r {
        lemma_keys_distinct(rt);
    }
    // every line of `u` is a line of `rw` or an appended line
    assert(rw.len() <= u.len());
    assert forall|i: int| 0 <= i < rw.len() implies #[trigger] u[i] == rw[i] by {}
    assert forall|i: int| 0 <= i < rw.len() implies #[trigger] rw[i] == rewrite_line(lines[i], a, r) by {}
    // the access line
    if has_access_line(lines) {
        let j = choose|j: int| 0 <= j < lines.len() && access_key().is_prefix_of(#[trigger] lines[j]);
        lemma_rewrite_idempotent(lines[j], a, r);
        assert(u[j] == access_key() + a);
    } else {
        assert(u[rw.len() as int] == access_key() + a);
    }
    assert(u.contains(access_key() + a));
    // the refresh line
    if let Some(rt) = r {
        if has_refresh_line(lines, a) {
            let j = choose|j: int|
                0 <= j < lines.len() && refresh_key().is_prefix_of(with_access(#[trigger] lines[j], a));
            lemma_rewrite_idempotent(lines[j], a, r);
            assert(u[j] == refresh_key() + rt);
        } else {
            assert(u[u.len() - 1] == refresh_key() + rt);
        }
        assert(u.contains(refresh_key() + rt));
    }
    // a second update rewrites every line to itself
    assert forall|i: int| 0 <= i < u.len() implies rewrite_line(#[trigger] u[i], a, r) == u[i] by {
        if i < rw.len() {
            lemma_rewrite_idempotent(lines[i], a, r);
        } else if u[i] == access_key() + a {
            lemma_rewrite_idempotent(access_key() + a, a, r);
        } else {
            assert(r is Some);
            lemma_rewrite_idempotent(refresh_key() + r->0, a, r);
        }
    }
    assert(rewrite_all(u, a, r) =~= u);
    assert(has_access_line(u)) by {
        let k = choose|k: int| 0 <= k < u.len() && u[k] == access_key() + a;
        assert(access_key().is_prefix_of(u[k]));
    }
    if let Some(rt) = r {
        assert(has_refresh_line(u, a)) by {
            let k = choose|k: int| 0 <= k < u.len() && u[k] == refresh_key() + rt;
            assert(with_access(u[k], a) == u[k]);
            assert(refresh_key().is_prefix_of(u[k]));
        }
    }
}

proof fn lemma_updated_no_newline(lines: Seq<Seq<char>>, a: Seq<char>, r: Option<Seq<char>>)
    requires
        forall|i: int| 0 <= i < lines.len() ==> !(#[trigger] lines[i]).contains('\n'),
        !a.contains('\n'),
        r matches Some(rt) ==> !rt.contains('\n'),
    ensures
        forall|i: int|
            0 <= i < updated_lines(lines, a, r).len() ==> !(#[trigger] updated_lines(
                lines,
                a,
                r,
            )[i]).contains('\n'),
{
    let u = updated_lines(lines, a, r);
    let rw = rewrite_all(lines, a, r);
    lemma_keys_distinct(a);
    assert forall|i: int| 0 <= i < u.len() implies !(#[trigger] u[i]).contains('\n') by {
        let l = u[i];
        if l.contains('\n') {
            let k = choose|k: int| 0 <= k < l.len() && l[k] == '\n';
            if i < rw.len() && l == lines[i] {
                assert(lines[i][k] == '\n');
            } else if l == access_key() + a {
                if k < access_key().len() {
                    assert(access_key()[k] == '\n');
                } else {
                    assert(a[k - access_key().len()] == '\n');
                }
            } else {
                assert(r is Some);
                let rt = r->0;
                assert(l == refresh_key() + rt);
                if k < refresh_key().len() {
                    assert(refresh_key()[k] == '\n');
                } else {
                    assert(rt[k - refresh_key().len()] == '\n');
                }
            }
        }
    }
}

/// The updated file, read back, has a line holding the new access token and,
/// when one is given, a line holding the new refresh token.
pub proof fn law_update_persists_tokens(content: Seq<char>, access: Seq<char>, refresh: Option<Seq<char>>)
    requires
        is_line_safe(access),
        refresh matches Some(rt) ==> is_line_safe(rt),
    ensures
        text_lines(update_env_spec(content, access, refresh)).contains(access_key() + access),
        refresh matches Some(rt) ==> text_lines(update_env_spec(content, access, refresh)).contains(
            refresh_key() + rt,
        ),
{
    let lines = text_lines(content);
    let u = updated_lines(lines, access, refresh);
    lemma_text_lines_no_newline(content);
    lemma_updated_no_newline(lines, access, refresh);
    lemma_updated_lines(lines, access, refresh);
    lemma_read_back(u);
    lemma_keys_distinct(access);
    let out = strip_all(u);
    let k = choose|k: int| 0 <= k < u.len() && u[k] == access_key() + access;
    assert(strip_cr(access_key() + access) == access_key() + access);
    assert(out[k] == access_key() + access);
    if let Some(rt) = refresh {
        lemma_keys_distinct(rt);
        let m = choose|m: int| 0 <= m < u.len() && u[m] == refresh_key() + rt;
        assert(strip_cr(refresh_key() + rt) == refresh_key() + rt);
        assert(out[m] == refresh_key() + rt);
    }
}

/// A line that an update leaves as it is: it holds neither token's key (the
/// refresh key counts only when a refresh token is given).
pub open spec fn is_kept_line(line: Seq<char>, refresh: Option<Seq<char>>) -> bool {
    &&& !access_key().is_prefix_of(line)
    &&& !(refresh is Some && refresh_key().is_prefix_of(line))
}

/// The line ends in a carriage return.
pub open spec fn ends_in_cr(line: Seq<char>) -> bool {
    line.len() > 0 && line.last() == '\r'
}

proof fn lemma_strip_after_key(key: Seq<char>, x: Seq<char>)
    requires
        key.len() > 0,
        key.last() != '\r',
    ensures
        strip_cr(key + x) == key + strip_cr(x),
{
    if x.len() > 0 {
        assert((key + x).last() == x.last());
        if x.last() == '\r' {
            assert((key + x).drop_last() =~= key + x.drop_last());
        }
    } else {
        assert(key + x =~= key);
        assert((key + x).last() == key.last());
    }
}

/// A line of an updated file, read back, is rewritten by a second update into
/// the line the first update wrote.
proof fn lemma_fixed_after_read_back(x: Seq<char>, a: Seq<char>, r: Option<Seq<char>>)
    requires
        x == access_key() + a || (r is Some && x == refresh_key() + r->0) || (is_kept_line(x, r)
            && !ends_in_cr(x)),
    ensures
        rewrite_line(strip_cr(x), a, r) == x,
{
    lemma_keys_distinct(a);
    lemma_keys_distinct(strip_cr(a));
    if x == access_key() + a {
        lemma_strip_after_key(access_key(), a);
        lemma_rewrite_idempotent(strip_cr(x), a, r);
    } else if r is Some && x == refresh_key() + r->0 {
        let rt = r->0;
        lemma_keys_distinct(rt);
        lemma_keys_distinct(strip_cr(rt));
        lemma_strip_after_key(refresh_key(), rt);
        lemma_rewrite_idempotent(strip_cr(x), a, r);
    } else {
        assert(strip_cr(x) == x);
    }
}

/// Updating a file twice with the same tokens gives the same text as updating
/// it once, provided that neither token holds a newline and no line the update
/// keeps as it is ends in `\r`.
pub proof fn law_update_idempotent(content: Seq<char>, access: Seq<char>, refresh: Option<Seq<char>>)
    requires
        !access.contains('\n'),
        refresh matches Some(rt) ==> !rt.contains('\n'),
        forall|i: int|
            0 <= i < text_lines(content).len() && is_kept_line(
                #[trigger] text_lines(content)[i],
                refresh,
            ) ==> !ends_in_cr(text_lines(content)[i]),
    ensures
        update_env_spec(update_env_spec(content, access, refresh), access, refresh)
            == update_env_spec(content, access, refresh),
{
    let lines = text_lines(content);
    let u = updated_lines(lines, access, refresh);
    lemma_text_lines_no_newline(content);
    lemma_updated_no_newline(lines, access, refresh);
    lemma_updated_lines(lines, access, refresh);
    lemma_read_back(u);
    lemma_keys_distinct(access);
    lemma_keys_distinct(strip_cr(access));
    lemma_strip_after_key(access_key(), access);
    if let Some(rt) = refresh {
        lemma_keys_distinct(rt);
        lemma_keys_distinct(strip_cr(rt));
        lemma_strip_after_key(refresh_key(), rt);
    }
    let rw = rewrite_all(lines, access, refresh);
    let v = strip_all(u);
    // each line of the first update is a token line or a kept line
    assert forall|i: int| 0 <= i < u.len() implies rewrite_line(#[trigger] v[i], access, refresh)
        == u[i] by {
        assert(v[i] == strip_cr(u[i]));
        if i < rw.len() {
            let l = lines[i];
            assert(u[i] == rewrite_line(l, access, refresh));
            lemma_rewrite_idempotent(l, access, refresh);
            if !access_key().is_prefix_of(l) && !(refresh is Some && refresh_key().is_prefix_of(l)) {
                assert(is_kept_line(l, refresh));
                assert(u[i] == l);
            }
        }
        lemma_fixed_after_read_back(u[i], access, refresh);
    }
    assert(rewrite_all(v, access, refresh) =~= u);
    assert(has_access_line(v)) by {
        let k = choose|k: int| 0 <= k < u.len() && u[k] == access_key() + access;
        assert(v[k] == access_key() + strip_cr(access));
    }
    if let Some(rt) = refresh {
        assert(has_refresh_line(v, access)) by {
            let k = choose|k: int| 0 <= k < u.len() && u[k] == refresh_key() + rt;
            assert(v[k] == refresh_key() + strip_cr(rt));
            assert(with_access(v[k], access) == v[k]);
        }
    }
    assert(updated_lines(v, access, refresh) == u);
}

/// Reading the updated file back gives the old lines in their places, kept
/// lines as they were (less a final `\r`), each access-token line replaced by
/// the new access token, each refresh-token line by the new refresh token when
/// one is given, and after them at most the two appended token lines.
pub proof fn law_update_keeps_other_lines(
    content: Seq<char>,
    access: Seq<char>,
    refresh: Option<Seq<char>>,
)
    requires
        !access.contains('\n'),
        refresh matches Some(rt) ==> !rt.contains('\n'),
    ensures
        text_lines(update_env_spec(content, access, refresh)).len() >= text_lines(content).len(),
        text_lines(update_env_spec(content, access, refresh)).len() <= text_lines(content).len()
            + 2,
        forall|i: int|
            0 <= i < text_lines(content).len() ==> {
                let old_line = #[trigger] text_lines(content)[i];
                let new_line = text_lines(update_env_spec(content, access, refresh))[i];
                &&& is_kept_line(old_line, refresh) ==> new_line == strip_cr(old_line)
                &&& "LINEAR_AGENT_TOKEN="@.is_prefix_of(old_line) ==> new_line == strip_cr(
                    "LINEAR_AGENT_TOKEN="@ + access,
                )
                &&& refresh is Some && !"LINEAR_AGENT_TOKEN="@.is_prefix_of(old_line)
                    && "LINEAR_REFRESH_TOKEN="@.is_prefix_of(old_line) ==> new_line == strip_cr(
                    "LINEAR_REFRESH_TOKEN="@ + refresh->0,
                )
            },
{
    let lines = text_lines(content);
    let u = updated_lines(lines, access, refresh);
    lemma_text_lines_no_newline(content);
    lemma_updated_no_newline(lines, access, refresh);
    lemma_updated_lines(lines, access, refresh);
    lemma_read_back(u);
    let rw = rewrite_all(lines, access, refresh);
    assert forall|i: int| 0 <= i < lines.len() implies u[i] == rewrite_line(
        #[trigger] lines[i],
        access,
        refresh,
    ) by {
        assert(u[i] == rw[i]);
    }
    assert forall|i: int| 0 <= i < lines.len() implies {
        let old_line = #[trigger] lines[i];
        let new_line = strip_all(u)[i];
        &&& is_kept_line(old_line, refresh) ==> new_line == strip_cr(old_line)
        &&& access_key().is_prefix_of(old_line) ==> new_line == strip_cr(access_key() + access)
        &&& refresh is Some && !access_key().is_prefix_of(old_line) && refresh_key().is_prefix_of(
            old_line,
        ) ==> new_line == strip_cr(refresh_key() + refresh->0)
    } by {
        lemma_rewrite_idempotent(lines[i], access, refresh);
    }
}

} // verus!
