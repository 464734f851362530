//! Text handling for names and save files

use vstd::prelude::*;

verus! {

/// `s` with every occurrence of the non-empty `pat` replaced by `rep`,
/// matching from the left without overlap.
pub open spec fn replaced(s: Seq<char>, pat: Seq<char>, rep: Seq<char>) -> Seq<char>
    recommends
        pat.len() > 0,
    decreases s.len(),
{
    if s.len() == 0 || pat.len() == 0 {
        s
    } else if pat.len() <= s.len() && s.take(pat.len() as int) == pat {
        rep + replaced(s.skip(pat.len() as int), pat, rep)
    } else {
        seq![s[0]] + replaced(s.skip(1), pat, rep)
    }
}

/// Whether two texts are equal
fn same_text(a: &str, b: &str) -> (r: bool)
    ensures
        r == (a@ == b@),
{
    String::from_str(a) == String::from_str(b)
}

/// `s` with every occurrence of the non-empty `pat` replaced by `rep`
pub fn replace_all(s: &str, pat: &str, rep: &str) -> (r: String)
    requires
        pat@.len() > 0,
    ensures
        r@ == replaced(s@, pat@, rep@),
{
    let n = s.unicode_len();
    let m = pat.unicode_len();
    let mut out = String::new();
    let mut i: usize = 0;
    proof {
        assert(s@.skip(0) =~= s@);
        assert(out@ + s@ =~= s@);
    }
    while i < n
        invariant
            n == s@.len(),
            m == pat@.len(),
            m > 0,
            0 <= i <= n,
            out@ + replaced(s@.skip(i as int), pat@, rep@) == replaced(s@, pat@, rep@),
        decreases n - i,
    {
        let ghost rest = s@.skip(i as int);
        if m <= n - i && same_text(s.substring_char(i, i + m), pat) {
            proof {
                assert(rest.take(m as int) =~= s@.subrange(i as int, i + m));
                assert(rest.skip(m as int) =~= s@.skip(i + m));
                assert(out@ + rep@ + replaced(s@.skip(i + m), pat@, rep@) =~= out@ + (rep@
                    + replaced(rest.skip(m as int), pat@, rep@)));
            }
            out.append(rep);
            i = i + m;
        } else {
            proof {
                if m <= n - i {
                    assert(rest.take(m as int) =~= s@.subrange(i as int, i + m));
                }
                assert(rest.skip(1) =~= s@.skip(i + 1));
                assert(s@.subrange(i as int, i + 1) =~= seq![rest[0]]);
                assert(out@ + seq![rest[0]] + replaced(s@.skip(i + 1), pat@, rep@) =~= out@ + (seq![
                    rest[0],
                ] + replaced(rest.skip(1), pat@, rep@)));
            }
            out.append(s.substring_char(i, i + 1));
            i = i + 1;
        }
    }
    proof {
        assert(s@.skip(n as int) =~= Seq::<char>::empty());
        assert(out@ + Seq::<char>::empty() =~= out@);
    }
    out
}

/// The name of an item from the asset path of its handle: the path with
/// every `items/` and every `.ron` removed
pub open spec fn item_name_of_path(path: Seq<char>) -> Seq<char> {
    replaced(replaced(path, "items/"@, ""@), ".ron"@, ""@)
}

/// The name of an item, as written in saves, from the asset path of its handle
pub fn item_name_from_path(path: &str) -> (r: String)
    ensures
        r@ == item_name_of_path(path@),
{
    proof {
        reveal_strlit("items/");
        reveal_strlit(".ron");
    }
    let without_dir = replace_all(path, "items/", "");
    replace_all(without_dir.as_str(), ".ron", "")
}

/// The file name of a new save, from two words
pub open spec fn save_name(first: Seq<char>, second: Seq<char>) -> Seq<char> {
    first + "-"@ + second + ".save.ron"@
}

/// The file name of a new save, from two words: `<first>-<second>.save.ron`
pub fn save_file_name(first: &str, second: &str) -> (r: String)
    ensures
        r@ == save_name(first@, second@),
{
    let mut name = String::from_str(first);
    name.append("-");
    name.append(second);
    name.append(".save.ron");
    name
}

/// `p` with its trailing separators and `.` components removed, as a
/// `Path` reads them when it looks for the file name.
pub open spec fn trim_path_end(p: Seq<char>) -> Seq<char>
    decreases p.len(),
{
    if p.len() == 0 {
        p
    } else if p.last() == '/' {
        trim_path_end(p.drop_last())
    } else if p.last() == '.' && (p.len() == 1 || p[p.len() - 2] == '/') {
        trim_path_end(p.drop_last())
    } else {
        p
    }
}

/// The index just after the last separator of `p`, or 0 if it has none.
pub open spec fn segment_start(p: Seq<char>) -> int
    decreases p.len(),
{
    if p.len() == 0 {
        0
    } else if p.last() == '/' {
        p.len() as int
    } else {
        segment_start(p.drop_last())
    }
}

/// The index of the last `.` in `s`, or -1 if it has none.
pub open spec fn last_dot(s: Seq<char>) -> int
    decreases s.len(),
{
    if s.len() == 0 {
        -1
    } else if s.last() == '.' {
        s.len() - 1
    } else {
        last_dot(s.drop_last())
    }
}

/// `pat` occurs in `s` starting at `i`.
pub open spec fn occurs_at(s: Seq<char>, pat: Seq<char>, i: int) -> bool {
    0 <= i && i + pat.len() <= s.len() && s.subrange(i, i + pat.len()) == pat
}

/// `pat` occurs nowhere in `s`.
pub open spec fn free_of(s: Seq<char>, pat: Seq<char>) -> bool {
    forall|i: int| !#[trigger] occurs_at(s, pat, i)
}

/// Replacing a pattern that does not occur changes nothing.
pub proof fn lemma_replaced_free(s: Seq<char>, pat: Seq<char>, rep: Seq<char>)
    requires
        pat.len() > 0,
        free_of(s, pat),
    ensures
        replaced(s, pat, rep) == s,
    decreases s.len(),
{
    if s.len() > 0 {
        assert(!occurs_at(s, pat, 0));
        if pat.len() <= s.len() {
            assert(s.take(pat.len() as int) =~= s.subrange(0, pat.len() as int));
        }
        let rest = s.skip(1);
        assert forall|i: int| !#[trigger] occurs_at(rest, pat, i) by {
            if occurs_at(rest, pat, i) {
                assert(rest.subrange(i, i + pat.len()) =~= s.subrange(i + 1, i + 1 + pat.len()));
                assert(occurs_at(s, pat, i + 1));
            }
        }
        lemma_replaced_free(rest, pat, rep);
        assert(seq![s[0]] + rest =~= s);
    }
}

/// Removing the extension `.ron` from a name followed by it gives the name,
/// when `.ron` does not occur in the name.
proof fn lemma_strip_ron(n: Seq<char>)
    requires
        free_of(n, ".ron"@),
    ensures
        replaced(n + ".ron"@, ".ron"@, ""@) == n,
    decreases n.len(),
{
    reveal_strlit(".ron");
    reveal_strlit("");
    let ext = ".ron"@;
    let s = n + ext;
    if n.len() == 0 {
        assert(s =~= ext);
        assert(s.take(4) =~= ext);
        assert(s.skip(4) =~= Seq::<char>::empty());
        assert(replaced(Seq::<char>::empty(), ext, ""@) == Seq::<char>::empty());
        assert(""@ + Seq::<char>::empty() =~= Seq::<char>::empty());
        assert(replaced(s, ext, ""@) == ""@ + replaced(s.skip(4), ext, ""@));
    } else {
        // `.ron` does not start at the first character
        assert(s.take(4) != ext) by {
            if n.len() >= 4 {
                assert(!occurs_at(n, ext, 0));
                assert(s.take(4) =~= n.subrange(0, 4));
            } else {
                let k = n.len() as int;
                assert(s.take(4)[k] == '.');
                assert(ext[k] != '.');
            }
        }
        let rest = n.skip(1);
        assert(s.skip(1) =~= rest + ext);
        assert forall|i: int| !#[trigger] occurs_at(rest, ext, i) by {
            if occurs_at(rest, ext, i) {
                assert(rest.subrange(i, i + 4) =~= n.subrange(i + 1, i + 5));
                assert(occurs_at(n, ext, i + 1));
            }
        }
        lemma_strip_ron(rest);
        assert(replaced(s, ext, ""@) == seq![s[0]] + replaced(s.skip(1), ext, ""@));
        assert(replaced(s.skip(1), ext, ""@) == rest);
        assert(seq![s[0]] + rest =~= n);
    }
}

/// The name saved for the item asset path `items/<n>.ron` is `n`, when
/// neither `items/` nor `.ron` occurs in `n`.
pub proof fn lemma_item_name_of_key(n: Seq<char>)
    requires
        free_of(n, "items/"@),
        free_of(n, ".ron"@),
    ensures
        item_name_of_path("items/"@ + n + ".ron"@) == n,
{
    reveal_strlit("items/");
    reveal_strlit(".ron");
    reveal_strlit("");
    let dir = "items/"@;
    let ext = ".ron"@;
    let tail = n + ext;
    let path = dir + n + ext;
    assert(path =~= dir + tail);
    assert(path.take(6) =~= dir);
    assert(path.skip(6) =~= tail);
    assert(replaced(path, dir, ""@) == ""@ + replaced(tail, dir, ""@));
    // `items/` does not occur in the name followed by `.ron`
    assert forall|i: int| !#[trigger] occurs_at(tail, dir, i) by {
        if occurs_at(tail, dir, i) {
            if i + 6 <= n.len() {
                assert(tail.subrange(i, i + 6) =~= n.subrange(i, i + 6));
                assert(occurs_at(n, dir, i));
            } else {
                assert(tail.subrange(i, i + 6)[5] == tail[i + 5]);
                assert(tail[i + 5] == ext[i + 5 - n.len()]);
            }
        }
    }
    lemma_replaced_free(tail, dir, ""@);
    assert(""@ + tail =~= tail);
    lemma_strip_ron(n);
}

/// The final component of `path`, as `Path::file_name` gives it: none when
/// the path ends in `..` or has no normal component.
pub open spec fn file_name_of(path: Seq<char>) -> Option<Seq<char>> {
    let t = trim_path_end(path);
    let name = t.subrange(segment_start(t), t.len() as int);
    if name.len() == 0 || name == seq!['.', '.'] {
        None
    } else {
        Some(name)
    }
}

/// The stem of file name `name`, as `Path::file_stem` gives it: the whole
/// name when it has no `.` after its first character, otherwise the part
/// before its final `.`.
pub open spec fn stem_of(name: Seq<char>) -> Seq<char> {
    if last_dot(name) <= 0 {
        name
    } else {
        name.take(last_dot(name))
    }
}

/// The stem of the file name of `path`, if it has one.
pub open spec fn file_stem_of(path: Seq<char>) -> Option<Seq<char>> {
    match file_name_of(path) {
        Some(name) => Some(stem_of(name)),
        None => None,
    }
}

/// The stem of the file name of `path`: its final component without its
/// extension, if it has a final component
pub fn file_stem(path: &str) -> (r: Option<String>)
    ensures
        match file_stem_of(path@) {
            Some(stem) => r matches Some(s) && s@ == stem,
            None => r is None,
        },
{
    let n = path.unicode_len();
    // Drop trailing separators and `.` components
    let mut end: usize = n;
    let mut trimmed = false;
    proof {
        assert(path@.take(n as int) =~= path@);
    }
    while !trimmed
        invariant
            end <= n,
            n == path@.len(),
            trim_path_end(path@.take(end as int)) == trim_path_end(path@),
            trimmed ==> trim_path_end(path@.take(end as int)) == path@.take(end as int),
        decreases end, (if trimmed { 0int } else { 1int }),
    {
        if end == 0 {
            trimmed = true;
        } else {
            let c = path.get_char(end - 1);
            proof {
                assert(path@.take(end as int).drop_last() =~= path@.take(end - 1));
            }
            if c == '/' {
                end = end - 1;
            } else if c == '.' && (end == 1 || path.get_char(end - 2) == '/') {
                end = end - 1;
            } else {
                trimmed = true;
            }
        }
    }
    // Find where the final component starts
    let mut start: usize = end;
    while start > 0 && path.get_char(start - 1) != '/'
        invariant
            start <= end <= n,
            n == path@.len(),
            segment_start(path@.take(end as int)) == segment_start(path@.take(start as int)),
        decreases start,
    {
        proof {
            assert(path@.take(start as int).drop_last() =~= path@.take(start - 1));
        }
        start = start - 1;
    }
    proof {
        if start > 0 {
            assert(path@.take(start as int).last() == '/');
        }
        let t = trim_path_end(path@);
        assert(t =~= path@.take(end as int));
        assert(t.subrange(segment_start(t), t.len() as int) =~= path@.subrange(start as int, end as int));
    }
    let name = path.substring_char(start, end);
    let m = end - start;
    if m == 0 || (m == 2 && name.get_char(0) == '.' && name.get_char(1) == '.') {
        proof {
            if m == 2 && name@[0] == '.' && name@[1] == '.' {
                assert(name@ =~= seq!['.', '.']);
            }
        }
        return None;
    }
    proof {
        if m == 2 {
            assert(name@ != seq!['.', '.']) by {
                if name@ == seq!['.', '.'] {
                    assert(name@[0] == '.');
                }
            }
        }
    }
    // Find the final `.` of the name
    let mut d: usize = m;
    proof {
        assert(name@.take(m as int) =~= name@);
    }
    while d > 0 && name.get_char(d - 1) != '.'
        invariant
            d <= m,
            m == name@.len(),
            last_dot(name@) == last_dot(name@.take(d as int)),
        decreases d,
    {
        proof {
            assert(name@.take(d as int).drop_last() =~= name@.take(d - 1));
        }
        d = d - 1;
    }
    proof {
        if d > 0 {
            assert(name@.take(d as int).last() == '.');
        }
    }
    if d <= 1 {
        Some(String::from_str(name))
    } else {
        Some(String::from_str(name.substring_char(0, d - 1)))
    }
}

/// A language of the word lists that save names are made from
#[derive(Clone, Copy, Debug, PartialEq, Eq)]
pub enum WordLanguage {
    English,
}

/// The word list of `lang`, as `random_word::all` gives it for that
/// language, each word as its characters.
pub uninterp spec fn word_list(lang: WordLanguage) -> Seq<Seq<char>>;

/// `random_word::gen` for `lang`: a word of the list of `lang`, chosen at
/// random. Which word comes back is not stated.
#[verifier::external_body]
pub(crate) fn random_word_in(lang: WordLanguage) -> (r: &'static str)
    ensures
        word_list(lang).contains(r@),
{
    match lang {
        WordLanguage::English => random_word::gen(random_word::Lang::En),
    }
}

} // verus!
