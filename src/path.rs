use vstd::prelude::*;

verus! {

/// `p` with every trailing `/` removed.
pub open spec fn trim_seps(p: Seq<char>) -> Seq<char>
    decreases p.len(),
{
    if p.len() > 0 && p[p.len() - 1] == '/' {
        trim_seps(p.subrange(0, p.len() - 1))
    } else {
        p
    }
}

/// The last component of `p` ends in `.json` after at least one other
/// character: the component has the extension `json`.
pub open spec fn has_json_extension(p: Seq<char>) -> bool {
    let t = trim_seps(p);
    let n = t.len();
    &&& n > 5
    &&& t[n - 6] != '/'
    &&& t[n - 5] == '.'
    &&& t[n - 4] == 'j'
    &&& t[n - 3] == 's'
    &&& t[n - 2] == 'o'
    &&& t[n - 1] == 'n'
}

/// Length of the part of `p` up to and including its last `/`; zero when it
/// has none.
pub open spec fn last_sep_end(p: Seq<char>) -> int
    decreases p.len(),
{
    if p.len() == 0 {
        0
    } else if p[p.len() - 1] == '/' {
        p.len() as int
    } else {
        last_sep_end(p.subrange(0, p.len() - 1))
    }
}

/// The directory that holds the last component of `p`: nothing for an empty
/// path or the root, the empty path for a single component, the root for a
/// component right under it.
pub open spec fn parent_of(p: Seq<char>) -> Option<Seq<char>> {
    let t = trim_seps(p);
    if t.len() == 0 {
        None
    } else {
        let pre = t.subrange(0, last_sep_end(t));
        let q = trim_seps(pre);
        if q.len() == 0 && pre.len() > 0 {
            Some(seq!['/'])
        } else {
            Some(q)
        }
    }
}

/// `file` placed inside the directory `dir`: a separator goes between the
/// two unless `dir` is empty or already ends with one.
pub open spec fn join_path(dir: Seq<char>, file: Seq<char>) -> Seq<char> {
    if dir.len() == 0 || dir[dir.len() - 1] == '/' {
        dir + file
    } else {
        dir + seq!['/'] + file
    }
}

/// A location given by the caller names a directory when it is one on disk,
/// or when its name lacks the `.json` extension; otherwise it names the file.
pub open spec fn given_location_is_directory(d: Seq<char>, is_dir: bool) -> bool {
    is_dir || !has_json_extension(d)
}

/// Length of `p` once its trailing separators are removed.
fn trimmed_len(p: &str) -> (r: usize)
    ensures
        r <= p@.len(),
        r as int == trim_seps(p@).len(),
        trim_seps(p@) == p@.subrange(0, r as int),
{
    let mut n = p.unicode_len();
    assert(p@.subrange(0, n as int) =~= p@);
    while n > 0 && p.get_char(n - 1) == '/'
        invariant
            n <= p@.len(),
            trim_seps(p@) == trim_seps(p@.subrange(0, n as int)),
        decreases n,
    {
        assert(p@.subrange(0, n - 1) =~= p@.subrange(0, n as int).subrange(0, n - 1));
        n = n - 1;
    }
    assert(p@.subrange(0, n as int).len() == n);
    n
}

/// Whether the last component of `p` carries the extension `json`.
pub fn has_json_ext(p: &str) -> (r: bool)
    ensures
        r == has_json_extension(p@),
{
    let n = trimmed_len(p);
    if n <= 5 {
        return false;
    }
    p.get_char(n - 6) != '/' && p.get_char(n - 5) == '.' && p.get_char(n - 4) == 'j'
        && p.get_char(n - 3) == 's' && p.get_char(n - 2) == 'o' && p.get_char(n - 1) == 'n'
}

/// The path of `file` inside the directory `dir`.
pub fn join(dir: &str, file: &str) -> (r: String)
    ensures
        r@ == join_path(dir@, file@),
{
    let n = dir.unicode_len();
    let base = String::from_str(dir);
    if n == 0 || dir.get_char(n - 1) == '/' {
        base.concat(file)
    } else {
        proof {
            reveal_strlit("/");
        }
        assert("/"@ =~= seq!['/']);
        base.concat("/").concat(file)
    }
}

proof fn lemma_last_sep_end_bounds(p: Seq<char>)
    ensures
        0 <= last_sep_end(p) <= p.len(),
    decreases p.len(),
{
    if p.len() > 0 && p[p.len() - 1] != '/' {
        lemma_last_sep_end_bounds(p.subrange(0, p.len() - 1));
    }
}

/// The parent directory of `p`, found from its text alone.
pub fn parent_dir(p: &str) -> (r: Option<String>)
    ensures
        match r {
            Some(d) => parent_of(p@) == Some(d@),
            None => parent_of(p@) is None,
        },
{
    let n = trimmed_len(p);
    if n == 0 {
        return None;
    }
    let ghost t = p@.subrange(0, n as int);
    let mut k = n;
    assert(t.subrange(0, k as int) =~= t);
    while k > 0 && p.get_char(k - 1) != '/'
        invariant
            k <= n,
            n <= p@.len(),
            t == p@.subrange(0, n as int),
            last_sep_end(t) == last_sep_end(t.subrange(0, k as int)),
        decreases k,
    {
        assert(t.subrange(0, k - 1) =~= t.subrange(0, k as int).subrange(0, k - 1));
        k = k - 1;
    }
    proof {
        lemma_last_sep_end_bounds(t);
        assert(last_sep_end(t.subrange(0, k as int)) == k);
    }
    let pre = p.substring_char(0, k);
    assert(pre@ =~= t.subrange(0, k as int));
    let q = trimmed_len(pre);
    if q == 0 && k > 0 {
        proof {
            reveal_strlit("/");
        }
        assert("/"@ =~= seq!['/']);
        Some(String::from_str("/"))
    } else {
        Some(String::from_str(pre.substring_char(0, q)))
    }
}

} // verus!
