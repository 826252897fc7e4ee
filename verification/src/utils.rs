//! Path and URI string helpers, and the space/quote-aware value tokenizer
//! used by the template rule parser.

use crate::strutil::push_char;
use vstd::prelude::*;

verus! {

/// ASCII whitespace, as the tokenizer understands it.
pub open spec fn is_ws(c: char) -> bool {
    c == ' ' || c == '\t' || c == '\n' || c == '\x0C' || c == '\r'
}

/// Executable test for `is_ws`.
fn is_ws_exec(c: char) -> (r: bool)
    ensures
        r == is_ws(c),
{
    c == ' ' || c == '\t' || c == '\n' || c == '\x0C' || c == '\r'
}

/// The first non-whitespace position at or after `i`.
pub open spec fn skip_ws(s: Seq<char>, i: int) -> int
    decreases s.len() - i,
{
    if i < 0 || i >= s.len() {
        s.len() as int
    } else if is_ws(s[i]) {
        skip_ws(s, i + 1)
    } else {
        i
    }
}

/// The first whitespace position at or after `i`, or the length.
pub open spec fn ws_idx_from(s: Seq<char>, i: int) -> int
    decreases s.len() - i,
{
    if i < 0 || i >= s.len() {
        s.len() as int
    } else if is_ws(s[i]) {
        i
    } else {
        ws_idx_from(s, i + 1)
    }
}

/// The characters of a double-quoted value starting inside the quotes at
/// `i`, honouring backslash escapes; an unterminated quote consumes to the
/// end of the string.
pub open spec fn quoted_val(s: Seq<char>, i: int, esc: bool) -> Seq<char>
    decreases s.len() - i,
{
    if i < 0 || i >= s.len() {
        Seq::empty()
    } else if esc {
        seq![s[i]] + quoted_val(s, i + 1, false)
    } else if s[i] == '\\' {
        quoted_val(s, i + 1, true)
    } else if s[i] == '"' {
        Seq::empty()
    } else {
        seq![s[i]] + quoted_val(s, i + 1, false)
    }
}

/// The position just after a double-quoted value starting inside the quotes
/// at `i`: one past the closing quote, or the length when unterminated.
pub open spec fn quoted_end(s: Seq<char>, i: int, esc: bool) -> int
    decreases s.len() - i,
{
    if i < 0 || i >= s.len() {
        s.len() as int
    } else if esc {
        quoted_end(s, i + 1, false)
    } else if s[i] == '\\' {
        quoted_end(s, i + 1, true)
    } else if s[i] == '"' {
        i + 1
    } else {
        quoted_end(s, i + 1, false)
    }
}

/// The next value of a directive's argument text starting at `pos`, and the
/// position to continue from: whitespace is skipped; a value is either a
/// bare run of non-whitespace characters or a double-quoted string with
/// backslash escaping.
pub open spec fn next_value(s: Seq<char>, pos: int) -> (Option<Seq<char>>, int) {
    let i = skip_ws(s, pos);
    if i >= s.len() {
        (None, s.len() as int)
    } else if s[i] == '"' {
        (Some(quoted_val(s, i + 1, false)), quoted_end(s, i + 1, false))
    } else {
        (Some(s.subrange(i, ws_idx_from(s, i))), ws_idx_from(s, i))
    }
}

/// Parse the next space- or quote-delimited value starting at `pos`.
/// Returns the value, if any, and the position to continue scanning from.
pub fn parse_next_value(s: &Vec<char>, pos: usize) -> (r: (Option<String>, usize))
    requires
        pos <= s@.len(),
    ensures
        ({
            let (v, np) = next_value(s@, pos as int);
            &&& (r.0 is Some <==> v is Some)
            &&& (r.0 matches Some(x) ==> v matches Some(y) && x@ == y)
            &&& r.1 as int == np
            &&& r.1 <= s@.len()
        }),
{
    let n = s.len();
    let mut i: usize = pos;
    while i < n
        invariant
            pos <= i <= n,
            n == s@.len(),
            skip_ws(s@, pos as int) == skip_ws(s@, i as int),
        ensures
            pos <= i <= n,
            n == s@.len(),
            skip_ws(s@, pos as int) == i as int,
        decreases n - i,
    {
        if !is_ws_exec(s[i]) {
            break ;
        }
        i = i + 1;
    }
    if i == n {
        return (None, n);
    }
    if s[i] == '"' {
        let mut value = String::new();
        let mut j: usize = i + 1;
        let mut esc = false;
        let ghost j0 = j as int;
        while j < n
            invariant
                i + 1 <= j <= n,
                n == s@.len(),
                pos <= i < n,
                skip_ws(s@, pos as int) == i as int,
                s@[i as int] == '"',
                j0 == i + 1,
                value@ + quoted_val(s@, j as int, esc) == quoted_val(s@, j0, false),
                quoted_end(s@, j as int, esc) == quoted_end(s@, j0, false),
            decreases n - j,
        {
            let c = s[j];
            if esc {
                push_char(&mut value, c);
                esc = false;
            } else if c == '\\' {
                esc = true;
            } else if c == '"' {
                j = j + 1;
                proof {
                    assert(value@ =~= quoted_val(s@, j0, false));
                }
                return (Some(value), j);
            } else {
                push_char(&mut value, c);
            }
            j = j + 1;
            proof {
                assert(value@ + quoted_val(s@, j as int, esc) =~= quoted_val(s@, j0, false));
            }
        }
        proof {
            assert(value@ =~= quoted_val(s@, j0, false));
        }
        (Some(value), n)
    } else {
        let mut j: usize = i;
        while j < n
            invariant
                i <= j <= n,
                n == s@.len(),
                ws_idx_from(s@, i as int) == ws_idx_from(s@, j as int),
            ensures
                i <= j <= n,
                n == s@.len(),
                ws_idx_from(s@, i as int) == j as int,
            decreases n - j,
        {
            if is_ws_exec(s[j]) {
                break ;
            }
            j = j + 1;
        }
        let mut value = String::new();
        let mut k: usize = i;
        while k < j
            invariant
                i <= k <= j <= n,
                n == s@.len(),
                value@ == s@.subrange(i as int, k as int),
            decreases j - k,
        {
            push_char(&mut value, s[k]);
            k = k + 1;
            proof {
                assert(value@ =~= s@.subrange(i as int, k as int));
            }
        }
        (Some(value), j)
    }
}

/// Skipping whitespace stays within the string and never goes backward.
pub proof fn lemma_skip_ws_bounds(s: Seq<char>, i: int)
    requires
        0 <= i <= s.len(),
    ensures
        i <= skip_ws(s, i) <= s.len(),
        skip_ws(s, i) < s.len() ==> !is_ws(s[skip_ws(s, i)]),
    decreases s.len() - i,
{
    if i < s.len() && is_ws(s[i]) {
        lemma_skip_ws_bounds(s, i + 1);
    }
}

/// The next whitespace position stays within the string.
pub proof fn lemma_ws_idx_bounds(s: Seq<char>, i: int)
    requires
        0 <= i <= s.len(),
    ensures
        i <= ws_idx_from(s, i) <= s.len(),
    decreases s.len() - i,
{
    if i < s.len() && !is_ws(s[i]) {
        lemma_ws_idx_bounds(s, i + 1);
    }
}

/// The end of a quoted value stays within the string.
pub proof fn lemma_quoted_end_bounds(s: Seq<char>, i: int, esc: bool)
    requires
        0 <= i <= s.len(),
    ensures
        i <= quoted_end(s, i, esc) <= s.len(),
    decreases s.len() - i,
{
    if i < s.len() {
        lemma_quoted_end_bounds(s, i + 1, if esc {
            false
        } else {
            s[i] == '\\'
        });
    }
}

/// A found value moves the scanning position strictly forward, and the
/// position never leaves the string.
pub proof fn lemma_next_value_bounds(s: Seq<char>, pos: int)
    requires
        0 <= pos <= s.len(),
    ensures
        pos <= next_value(s, pos).1 <= s.len(),
        next_value(s, pos).0 is Some ==> next_value(s, pos).1 > pos,
{
    lemma_skip_ws_bounds(s, pos);
    let i = skip_ws(s, pos);
    if i < s.len() {
        if s[i] == '"' {
            lemma_quoted_end_bounds(s, i + 1, false);
        } else {
            lemma_ws_idx_bounds(s, i);
            assert(ws_idx_from(s, i) == ws_idx_from(s, i + 1));
            lemma_ws_idx_bounds(s, i + 1);
        }
    }
}

/// Joining of two path pieces, the way pushing onto a path buffer joins
/// them: an empty base disappears, a base ending in a separator is used as
/// is, any other base gets a separator appended.
pub open spec fn join_path(a: Seq<char>, b: Seq<char>) -> Seq<char> {
    if a.len() == 0 {
        b
    } else if a.last() == '/' {
        a + b
    } else {
        a + "/"@ + b
    }
}

/// The position of the last separator of a path, if any.
pub open spec fn last_slash(s: Seq<char>) -> Option<int>
    decreases s.len(),
{
    if s.len() == 0 {
        None
    } else if s.last() == '/' {
        Some(s.len() - 1)
    } else {
        last_slash(s.drop_last())
    }
}

/// The parent of a path: everything before the last separator, the lone
/// root separator when the separator comes first, or empty without one.
pub open spec fn parent_dir(s: Seq<char>) -> Seq<char> {
    match last_slash(s) {
        None => Seq::empty(),
        Some(k) => if k == 0 {
            "/"@
        } else {
            s.subrange(0, k)
        },
    }
}

/// The absolute path a directive value names: a value with a leading
/// separator is resolved against the site root, any other against the
/// directory of the file being processed.
pub open spec fn abs_path_of(root: Seq<char>, path: Seq<char>, value: Seq<char>) -> Seq<char> {
    if value.len() > 0 && value[0] == '/' {
        join_path(root, value.subrange(1, value.len() as int))
    } else {
        join_path(parent_dir(path), value)
    }
}

/// Find the last separator of a string.
pub fn last_slash_exec(s: &str) -> (r: Option<usize>)
    ensures
        ({
            match r {
                Some(k) => last_slash(s@) == Some(k as int) && k < s@.len(),
                None => last_slash(s@) is None,
            }
        }),
{
    let n = s.unicode_len();
    let mut i: usize = n;
    proof {
        assert(s@.subrange(0, n as int) =~= s@);
    }
    while i > 0
        invariant
            i <= n,
            n == s@.len(),
            last_slash(s@) == last_slash(s@.subrange(0, i as int)),
        decreases i,
    {
        proof {
            assert(s@.subrange(0, i as int).drop_last() =~= s@.subrange(0, i - 1));
        }
        if s.get_char(i - 1) == '/' {
            proof {
                assert(s@.subrange(0, i as int).last() == s@[i - 1]);
            }
            return Some(i - 1);
        }
        i = i - 1;
    }
    proof {
        assert(s@.subrange(0, 0) =~= Seq::<char>::empty());
    }
    None
}

/// Append `b` onto the path `a`, separator-aware.
fn join_path_exec(a: &str, b: &str) -> (r: String)
    ensures
        r@ == join_path(a@, b@),
{
    let n = a.unicode_len();
    let mut r = a.to_owned();
    if n == 0 {
        r.append(b);
        return r;
    }
    if a.get_char(n - 1) != '/' {
        r.append("/");
    }
    r.append(b);
    r
}

/// The parent directory of a path.
pub fn parent_dir_exec(path: &str) -> (r: String)
    ensures
        r@ == parent_dir(path@),
{
    match last_slash_exec(path) {
        Some(k) => {
            if k == 0 {
                String::from_str("/")
            } else {
                path.substring_char(0, k).to_owned()
            }
        },
        None => String::new(),
    }
}

/// Get the absolute path out of a directive value given the site root and
/// the path of the file being processed.
pub fn get_abs_path(root: &str, path: &str, value: &str) -> (r: String)
    ensures
        r@ == abs_path_of(root@, path@, value@),
{
    let vn = value.unicode_len();
    if vn > 0 && value.get_char(0) == '/' {
        let rest = value.substring_char(1, vn);
        join_path_exec(root, rest)
    } else {
        let parent = match last_slash_exec(path) {
            Some(k) => {
                if k == 0 {
                    String::from_str("/")
                } else {
                    path.substring_char(0, k).to_owned()
                }
            },
            None => String::new(),
        };
        join_path_exec(parent.as_str(), value)
    }
}

/// What is left of a path after its root prefix and the following
/// separator.
pub open spec fn root_relative(source: Seq<char>, path: Seq<char>) -> Seq<char> {
    let cut = if source.len() + 1 <= path.len() {
        source.len() + 1
    } else {
        path.len()
    };
    path.subrange(cut as int, path.len() as int)
}

/// Replace `path`'s `source` root with `destination`. The path must start
/// with the source root.
pub fn replace_root(source: &str, destination: &str, path: &str) -> (r: String)
    requires
        path@.len() >= source@.len(),
        path@.subrange(0, source@.len() as int) == source@,
    ensures
        r@ == join_path(destination@, root_relative(source@, path@)),
{
    let sn = source.unicode_len();
    let pn = path.unicode_len();
    let cut = if sn < pn {
        sn + 1
    } else {
        pn
    };
    let rel = path.substring_char(cut, pn);
    join_path_exec(destination, rel)
}

/// The site URI of a file under the site root: the root-relative path
/// behind a single leading separator.
pub fn path_to_uri(root: &str, path: &str) -> (r: String)
    requires
        path@.len() >= root@.len(),
        path@.subrange(0, root@.len() as int) == root@,
    ensures
        r@ == join_path("/"@, root_relative(root@, path@)),
{
    replace_root(root, "/", path)
}

/// The first position where the two strings differ; the length of the
/// first when they are equal.
pub open spec fn mismatch_from(a: Seq<char>, b: Seq<char>, i: int) -> int
    decreases vstd::math::max(a.len() as int, b.len() as int) - i,
{
    let n = vstd::math::max(a.len() as int, b.len() as int);
    if i < 0 || i >= n {
        a.len() as int
    } else if i < a.len() && i < b.len() && a[i] == b[i] {
        mismatch_from(a, b, i + 1)
    } else {
        i
    }
}

/// The last shared separator strictly before `stop`, or zero.
pub open spec fn last_shared_slash(uri: Seq<char>, stop: int) -> int
    decreases stop,
{
    if stop <= 0 {
        0
    } else if 0 <= stop - 1 < uri.len() && uri[stop - 1] == '/' {
        stop - 1
    } else {
        last_shared_slash(uri, stop - 1)
    }
}

/// How many separators appear at or after `i`.
pub open spec fn slash_count_from(s: Seq<char>, i: int) -> nat
    decreases s.len() - i,
{
    if i < 0 || i >= s.len() {
        0
    } else if s[i] == '/' {
        1 + slash_count_from(s, i + 1)
    } else {
        slash_count_from(s, i + 1)
    }
}

/// `n` steps upward, written as parent-directory references.
pub open spec fn ups(n: nat) -> Seq<char>
    decreases n,
{
    if n == 0 {
        Seq::empty()
    } else {
        ups((n - 1) as nat) + "../"@
    }
}

/// The URI `uri` made relative to the URI `relative_to`: enough parent
/// steps to leave the unshared part of `relative_to`, then the part of
/// `uri` after the last shared separator.
pub open spec fn relative_uri(relative_to: Seq<char>, uri: Seq<char>) -> Seq<char> {
    let m = mismatch_from(relative_to, uri, 0);
    let lss = last_shared_slash(uri, m);
    ups(slash_count_from(relative_to, m)) + uri.subrange(lss + 1, uri.len() as int)
}

/// Make `uri` relative to `relative_to`.
pub fn get_relative_uri(relative_to: &str, uri: &str) -> (r: String)
    requires
        uri@.len() > 0,
    ensures
        r@ == relative_uri(relative_to@, uri@),
{
    let an = relative_to.unicode_len();
    let bn = uri.unicode_len();
    let n = if an > bn {
        an
    } else {
        bn
    };
    let mut i: usize = 0;
    let mut lss: usize = 0;
    while i < n
        invariant
            i <= n,
            an == relative_to@.len(),
            bn == uri@.len(),
            n == vstd::math::max(an as int, bn as int),
            mismatch_from(relative_to@, uri@, 0) == mismatch_from(relative_to@, uri@, i as int),
            lss as int == last_shared_slash(uri@, i as int),
            lss <= i,
            forall|k: int|
                0 <= k < i ==> (k < an && k < bn && relative_to@[k] == uri@[k]),
        ensures
            i <= n,
            an == relative_to@.len(),
            bn == uri@.len(),
            mismatch_from(relative_to@, uri@, 0) == i as int,
            lss as int == last_shared_slash(uri@, i as int),
            lss <= i,
        decreases n - i,
    {
        let same = i < an && i < bn && relative_to.get_char(i) == uri.get_char(i);
        if !same {
            proof {
                assert(mismatch_from(relative_to@, uri@, i as int) == i as int);
            }
            break ;
        }
        if uri.get_char(i) == '/' {
            lss = i;
        }
        i = i + 1;
        proof {
            if !(0 <= i - 1 < uri@.len() && uri@[i - 1] == '/') {
                assert(last_shared_slash(uri@, i as int) == last_shared_slash(uri@, i - 1));
            }
        }
    }
    let ghost m = mismatch_from(relative_to@, uri@, 0);
    proof {
        assert(m == i as int);
        lemma_lss_range(uri@, m);
    }
    let mut j: usize = i;
    let mut r = String::new();
    while j < an
        invariant
            i <= j <= an,
            an == relative_to@.len(),
            r@ == ups(
                (slash_count_from(relative_to@, i as int) - slash_count_from(
                    relative_to@,
                    j as int,
                )) as nat,
            ),
            slash_count_from(relative_to@, j as int) <= slash_count_from(relative_to@, i as int),
        decreases an - j,
    {
        if relative_to.get_char(j) == '/' {
            r.append("../");
        }
        j = j + 1;
        proof {
            lemma_slash_count_mono(relative_to@, i as int, j as int);
        }
    }
    proof {
        assert(r@ == ups(slash_count_from(relative_to@, i as int)));
    }
    let tail = uri.substring_char(lss + 1, bn);
    r.append(tail);
    r
}

/// The slash count never grows when the start moves right.
proof fn lemma_slash_count_mono(s: Seq<char>, i: int, j: int)
    requires
        0 <= i <= j,
    ensures
        slash_count_from(s, j) <= slash_count_from(s, i),
    decreases j - i,
{
    if i < j {
        lemma_slash_count_mono(s, i + 1, j);
    }
}

/// The last shared separator is either zero or a separator position inside
/// the string.
proof fn lemma_lss_range(uri: Seq<char>, m: int)
    ensures
        0 <= last_shared_slash(uri, m),
        last_shared_slash(uri, m) == 0 || (last_shared_slash(uri, m) < uri.len() && uri[
            last_shared_slash(uri, m)
        ] == '/'),
    decreases m,
{
    if m > 0 {
        lemma_lss_range(uri, m - 1);
    }
}

} // verus!
