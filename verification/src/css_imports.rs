//! Discovery of `@import` targets in a user stylesheet, so that the
//! files a theme manager rewrites can be watched for hot-reload.
//!
//! The parser is lenient: anything it cannot recognize is skipped. Real
//! CSS evaluation is left to GTK; this only finds what else to watch.

use vstd::prelude::*;
use crate::text::{chars_of, concat_vec, contains, find, find_exec, find_from, index_of_char, index_of_char_exec, lemma_find_from, lemma_index_of_char, lemma_trim_start_suffix, occurs_at, slice_vec, starts_with, starts_with_exec, string_of, trim, trim_start, trim_start_vec, trim_vec};

verus! {

/// `css` with every `/* ... */` block removed; an unterminated comment
/// consumes the rest of the text.
pub open spec fn strip_comments(s: Seq<char>) -> Seq<char>
    decreases s.len(),
{
    match find(s, "/*"@) {
        None => s,
        Some(start) => {
            if 0 <= start && start + 2 <= s.len() {
                let rest = s.skip(start + 2);
                match find(rest, "*/"@) {
                    Some(end) => if 0 <= end && end + 2 <= rest.len() {
                        s.take(start) + strip_comments(rest.skip(end + 2))
                    } else {
                        s.take(start)
                    },
                    None => s.take(start),
                }
            } else {
                s
            }
        },
    }
}

/// A quoted path is refused when it holds a raw newline (an unclosed
/// quote would otherwise swallow the following directives).
pub open spec fn finalize_quoted(path: Seq<char>, after: Seq<char>) -> Option<(Seq<char>, Seq<char>)> {
    if path.contains('\n') {
        None
    } else {
        Some((path, after))
    }
}

/// A quoted string starting right after its opening `q`: the content up
/// to the closing `q` and what follows it.
pub open spec fn take_quoted(rest: Seq<char>, q: char) -> Option<(Seq<char>, Seq<char>)> {
    match index_of_char(rest, q) {
        Some(end) => if 0 <= end < rest.len() {
            Some((rest.take(end), rest.skip(end + 1)))
        } else {
            None
        },
        None => None,
    }
}

/// The path part of an `@import` directive and the text after it, for
/// the forms `"path"`, `'path'`, `url("path")`, `url('path')` and
/// `url(path)`.
pub open spec fn take_import(s: Seq<char>) -> Option<(Seq<char>, Seq<char>)> {
    if starts_with(s, seq!['"']) {
        match take_quoted(s.drop_first(), '"') {
            Some((p, a)) => finalize_quoted(p, a),
            None => None,
        }
    } else if starts_with(s, seq!['\'']) {
        match take_quoted(s.drop_first(), '\'') {
            Some((p, a)) => finalize_quoted(p, a),
            None => None,
        }
    } else if starts_with(s, "url"@) {
        let r = trim_start(s.skip(3));
        if !starts_with(r, seq!['(']) {
            None
        } else {
            let r2 = trim_start(r.drop_first());
            if starts_with(r2, seq!['"']) || starts_with(r2, seq!['\'']) {
                let q = r2[0];
                match take_quoted(r2.drop_first(), q) {
                    Some((p, a)) => {
                        let a1 = trim_start(a);
                        let a2 = if starts_with(a1, seq![')']) {
                            a1.drop_first()
                        } else {
                            a1
                        };
                        finalize_quoted(p, a2)
                    },
                    None => None,
                }
            } else {
                match index_of_char(r2, ')') {
                    Some(end) => if 0 <= end < r2.len() {
                        Some((trim(r2.take(end)), r2.skip(end + 1)))
                    } else {
                        None
                    },
                    None => None,
                }
            }
        }
    } else {
        None
    }
}

/// What follows an import path is never longer than the input.
pub proof fn lemma_take_import_shrinks(s: Seq<char>)
    ensures
        take_import(s) matches Some((p, a)) ==> a.len() < s.len(),
{
    if starts_with(s, seq!['"']) {
        lemma_index_of_char(s.drop_first(), '"');
    } else if starts_with(s, seq!['\'']) {
        lemma_index_of_char(s.drop_first(), '\'');
    } else if starts_with(s, "url"@) {
        reveal_strlit("url");
        let r = trim_start(s.skip(3));
        lemma_trim_start_suffix(s.skip(3));
        if starts_with(r, seq!['(']) {
            let r2 = trim_start(r.drop_first());
            lemma_trim_start_suffix(r.drop_first());
            if starts_with(r2, seq!['"']) || starts_with(r2, seq!['\'']) {
                let q = r2[0];
                lemma_index_of_char(r2.drop_first(), q);
                if let Some((p, a)) = take_quoted(r2.drop_first(), q) {
                    lemma_trim_start_suffix(a);
                }
            } else {
                lemma_index_of_char(r2, ')');
            }
        }
    }
}

/// The raw paths of the `@import` directives in `rest`, in order,
/// leaving out empty and whitespace-only ones and skipping malformed
/// directives.
pub open spec fn imports_in(rest: Seq<char>) -> Seq<Seq<char>>
    decreases rest.len(),
{
    match find(rest, "@import"@) {
        None => Seq::empty(),
        Some(pos) => if 0 <= pos && pos + 7 <= rest.len() {
            let r2 = trim_start(rest.skip(pos + 7));
            proof {
                lemma_trim_start_suffix(rest.skip(pos + 7));
                lemma_take_import_shrinks(r2);
            }
            match take_import(r2) {
                Some((p, after)) => if trim(p).len() > 0 {
                    seq![p] + imports_in(after)
                } else {
                    imports_in(after)
                },
                None => imports_in(r2),
            }
        } else {
            Seq::empty()
        },
    }
}

/// The raw `@import` paths of a stylesheet, comments ignored.
pub open spec fn css_imports(css: Seq<char>) -> Seq<Seq<char>> {
    imports_in(strip_comments(css))
}

/// Removes `/* ... */` blocks from CSS source. An unterminated comment
/// consumes the rest of the text; everything else is left untouched.
pub fn strip_css_comments(css: &str) -> (r: String)
    ensures
        r@ == strip_comments(css@),
{
    let v = chars_of(css);
    let open_c = chars_of("/*");
    let close_c = chars_of("*/");
    let mut out: Vec<char> = Vec::new();
    let mut rest = v;
    loop
        invariant
            open_c@ == "/*"@,
            close_c@ == "*/"@,
            strip_comments(css@) == out@ + strip_comments(rest@),
        decreases rest@.len(),
    {
        proof {
            lemma_find_from(rest@, "/*"@, 0);
            reveal_strlit("/*");
            reveal_strlit("*/");
            assert("/*"@.len() == 2);
            assert("*/"@.len() == 2);
        }
        match find_exec(&rest, &open_c, 0) {
            None => {
                let r = concat_vec(&out, &rest);
                return string_of(&r);
            },
            Some(start) => {
                assert(find_from(rest@, "/*"@, 0) == Some(start as int));
                assert(occurs_at(rest@, "/*"@, start as int));
                assert(start + 2 <= rest.len());
                let pre = slice_vec(&rest, 0, start);
                let after = slice_vec(&rest, start + 2, rest.len());
                proof {
                    lemma_find_from(after@, "*/"@, 0);
                    assert(after@ =~= rest@.skip(start + 2));
                    assert(pre@ =~= rest@.take(start as int));
                }
                match find_exec(&after, &close_c, 0) {
                    Some(end) => {
                        out = concat_vec(&out, &pre);
                        let next = slice_vec(&after, end + 2, after.len());
                        proof {
                            assert(next@ =~= after@.skip(end + 2));
                        }
                        rest = next;
                    },
                    None => {
                        let r = concat_vec(&out, &pre);
                        return string_of(&r);
                    },
                }
            },
        }
    }
}


fn contains_char_exec(v: &Vec<char>, c: char) -> (b: bool)
    ensures
        b == v@.contains(c),
{
    let mut i: usize = 0;
    while i < v.len()
        invariant
            i <= v.len(),
            forall|k: int| 0 <= k < i ==> v@[k] != c,
        decreases v.len() - i,
    {
        if v[i] == c {
            return true;
        }
        i += 1;
    }
    false
}

fn finalize_quoted_exec(path: Vec<char>, after: Vec<char>) -> (r: Option<(Vec<char>, Vec<char>)>)
    ensures
        r matches Some((p, a)) ==> finalize_quoted(path@, after@) == Some((p@, a@)),
        r is None ==> finalize_quoted(path@, after@) is None,
{
    if contains_char_exec(&path, '\n') {
        None
    } else {
        Some((path, after))
    }
}

fn take_quoted_exec(rest: &Vec<char>, q: char) -> (r: Option<(Vec<char>, Vec<char>)>)
    ensures
        r matches Some((p, a)) ==> take_quoted(rest@, q) == Some((p@, a@)),
        r is None ==> take_quoted(rest@, q) is None,
{
    proof {
        lemma_index_of_char(rest@, q);
    }
    match index_of_char_exec(rest, q) {
        Some(end) => {
            assert(end < rest.len());
            let p = slice_vec(rest, 0, end);
            let a = slice_vec(rest, end + 1, rest.len());
            assert(p@ =~= rest@.take(end as int));
            assert(a@ =~= rest@.skip(end + 1));
            Some((p, a))
        },
        None => None,
    }
}

fn take_import_vec(s: &Vec<char>) -> (r: Option<(Vec<char>, Vec<char>)>)
    ensures
        r matches Some((p, a)) ==> take_import(s@) == Some((p@, a@)),
        r is None ==> take_import(s@) is None,
{
    let dq = vec!['"'];
    let sq = vec!['\''];
    let url = chars_of("url");
    let lp = vec!['('];
    let rp = vec![')'];
    assert(dq@ =~= seq!['"']);
    assert(sq@ =~= seq!['\'']);
    assert(lp@ =~= seq!['(']);
    assert(rp@ =~= seq![')']);
    proof {
        reveal_strlit("url");
    }
    if starts_with_exec(s, &dq) {
        let rest = slice_vec(s, 1, s.len());
        assert(rest@ =~= s@.drop_first());
        match take_quoted_exec(&rest, '"') {
            Some((p, a)) => finalize_quoted_exec(p, a),
            None => None,
        }
    } else if starts_with_exec(s, &sq) {
        let rest = slice_vec(s, 1, s.len());
        assert(rest@ =~= s@.drop_first());
        match take_quoted_exec(&rest, '\'') {
            Some((p, a)) => finalize_quoted_exec(p, a),
            None => None,
        }
    } else if starts_with_exec(s, &url) {
        let tail = slice_vec(s, 3, s.len());
        assert(tail@ =~= s@.skip(3));
        let r = trim_start_vec(&tail);
        if !starts_with_exec(&r, &lp) {
            return None;
        }
        let r1 = slice_vec(&r, 1, r.len());
        assert(r1@ =~= r@.drop_first());
        let r2 = trim_start_vec(&r1);
        if starts_with_exec(&r2, &dq) || starts_with_exec(&r2, &sq) {
            let q = r2[0];
            let inner = slice_vec(&r2, 1, r2.len());
            assert(inner@ =~= r2@.drop_first());
            match take_quoted_exec(&inner, q) {
                Some((p, a)) => {
                    let a1 = trim_start_vec(&a);
                    let a2 = if starts_with_exec(&a1, &rp) {
                        let t = slice_vec(&a1, 1, a1.len());
                        assert(t@ =~= a1@.drop_first());
                        t
                    } else {
                        a1
                    };
                    finalize_quoted_exec(p, a2)
                },
                None => None,
            }
        } else {
            proof {
                lemma_index_of_char(r2@, ')');
            }
            match index_of_char_exec(&r2, ')') {
                Some(end) => {
                    assert(end < r2.len());
                    let raw = slice_vec(&r2, 0, end);
                    let p = trim_vec(&raw);
                    let a = slice_vec(&r2, end + 1, r2.len());
                    assert(raw@ =~= r2@.take(end as int));
                    assert(a@ =~= r2@.skip(end + 1));
                    Some((p, a))
                },
                None => None,
            }
        }
    } else {
        None
    }
}

/// Parses the path portion of an `@import` directive, returning the
/// extracted path and the text that follows it. Recognized forms are
/// `"path"`, `'path'`, `url("path")`, `url('path')` and `url(path)`;
/// anything else, an unclosed quote or a quoted path holding a newline
/// gives `None`.
pub fn take_import_path(s: &str) -> (r: Option<(String, String)>)
    ensures
        r matches Some((p, a)) ==> take_import(s@) == Some((p@, a@)),
        r is None ==> take_import(s@) is None,
{
    let v = chars_of(s);
    match take_import_vec(&v) {
        Some((p, a)) => Some((string_of(&p), string_of(&a))),
        None => None,
    }
}

/// Extracts the raw path string from every `@import` directive of the
/// stylesheet, in order, after stripping `/* ... */` comments. Empty and
/// whitespace-only paths, and malformed directives, are skipped.
pub fn parse_css_imports(css: &str) -> (r: Vec<String>)
    ensures
        r.deep_view() == css_imports(css@),
{
    let stripped = strip_css_comments(css);
    let mut rest = chars_of(stripped.as_str());
    let kw = chars_of("@import");
    proof {
        reveal_strlit("@import");
    }
    let mut imports: Vec<String> = Vec::new();
    loop
        invariant
            kw@ == "@import"@,
            "@import"@.len() == 7,
            css_imports(css@) == imports.deep_view() + imports_in(rest@),
        decreases rest@.len(),
    {
        proof {
            lemma_find_from(rest@, "@import"@, 0);
        }
        match find_exec(&rest, &kw, 0) {
            None => {
                assert(imports.deep_view() + Seq::<Seq<char>>::empty() =~= imports.deep_view());
                return imports;
            },
            Some(pos) => {
                assert(occurs_at(rest@, "@import"@, pos as int));
                assert(pos + 7 <= rest.len());
                let after_kw = slice_vec(&rest, pos + 7, rest.len());
                assert(after_kw@ =~= rest@.skip(pos + 7));
                let r2 = trim_start_vec(&after_kw);
                proof {
                    lemma_trim_start_suffix(after_kw@);
                    lemma_take_import_shrinks(r2@);
                }
                match take_import_vec(&r2) {
                    Some((p, after)) => {
                        let t = trim_vec(&p);
                        if t.len() > 0 {
                            let ghost old_imports = imports.deep_view();
                            imports.push(string_of(&p));
                            assert(imports.deep_view() =~= old_imports.push(p@));
                            assert(old_imports.push(p@) + imports_in(after@) =~= old_imports + (
                            seq![p@] + imports_in(after@)));
                        }
                        rest = after;
                    },
                    None => {
                        rest = r2;
                    },
                }
            },
        }
    }
}

/// URL schemes that are not treated as filesystem paths.
pub open spec fn unwatchable_url(s: Seq<char>) -> bool {
    starts_with(s, "http://"@) || starts_with(s, "https://"@) || starts_with(s, "data:"@)
        || starts_with(s, "file://"@)
}

/// Whether an import target is a URL that cannot be watched on the local
/// filesystem (`http://`, `https://`, `data:`, `file://`).
pub fn is_unwatchable_url(s: &str) -> (b: bool)
    ensures
        b == unwatchable_url(s@),
{
    let v = chars_of(s);
    starts_with_exec(&v, &chars_of("http://")) || starts_with_exec(&v, &chars_of("https://"))
        || starts_with_exec(&v, &chars_of("data:")) || starts_with_exec(&v, &chars_of("file://"))
}

/// `base.join(rel)` for Unix paths: an absolute `rel` replaces `base`,
/// otherwise `rel` is appended, with a `/` between them unless `base` is
/// empty or already ends with one.
pub open spec fn join_path(base: Seq<char>, rel: Seq<char>) -> Seq<char> {
    if starts_with(rel, seq!['/']) {
        rel
    } else if base.len() == 0 || base.last() == '/' {
        base + rel
    } else {
        base + seq!['/'] + rel
    }
}

/// `Path::join` for Unix paths held as strings.
pub fn join_path_str(base: &str, rel: &str) -> (r: String)
    ensures
        r@ == join_path(base@, rel@),
{
    let b = chars_of(base);
    let p = chars_of(rel);
    let slash = vec!['/'];
    assert(slash@ =~= seq!['/']);
    if starts_with_exec(&p, &slash) {
        string_of(&p)
    } else if b.len() == 0 || b[b.len() - 1] == '/' {
        string_of(&concat_vec(&b, &p))
    } else {
        let bs = concat_vec(&b, &slash);
        string_of(&concat_vec(&bs, &p))
    }
}

/// Where an `@import` target lives on disk: `None` for empty or
/// whitespace-only input and for unwatchable URLs, the trimmed path when
/// absolute, and the trimmed path resolved against `base_dir` otherwise.
pub open spec fn resolved_import(raw: Seq<char>, base_dir: Seq<char>) -> Option<Seq<char>> {
    let t = trim(raw);
    if t.len() == 0 || unwatchable_url(t) {
        None
    } else {
        Some(join_path(base_dir, t))
    }
}

/// Converts a raw `@import` path into a filesystem path, relative paths
/// resolved against `base_dir`.
pub fn resolve_import_path(raw: &str, base_dir: &str) -> (r: Option<String>)
    ensures
        r matches Some(p) ==> resolved_import(raw@, base_dir@) == Some(p@),
        r is None ==> resolved_import(raw@, base_dir@) is None,
{
    let t = string_of(&trim_vec(&chars_of(raw)));
    if t.as_str().is_empty() {
        return None;
    }
    if is_unwatchable_url(t.as_str()) {
        return None;
    }
    Some(join_path_str(base_dir, t.as_str()))
}


/// The resolved targets of the imports among `raws[..]`, in order, those
/// that cannot be watched left out.
pub open spec fn resolved_imports(raws: Seq<Seq<char>>, base_dir: Seq<char>) -> Seq<Seq<char>>
    decreases raws.len(),
{
    if raws.len() == 0 {
        Seq::empty()
    } else {
        let prev = resolved_imports(raws.drop_last(), base_dir);
        match resolved_import(raws.last(), base_dir) {
            Some(p) => prev.push(p),
            None => prev,
        }
    }
}

/// The files a stylesheet imports, resolved against its directory: the
/// candidates to watch (those that exist on disk are watched).
pub fn discover_import_candidates(css: &str, base_dir: &str) -> (r: Vec<String>)
    ensures
        r.deep_view() == resolved_imports(css_imports(css@), base_dir@),
{
    let raws = parse_css_imports(css);
    let ghost rv = raws.deep_view();
    let mut r: Vec<String> = Vec::new();
    let mut i: usize = 0;
    while i < raws.len()
        invariant
            i <= raws@.len(),
            rv == raws.deep_view(),
            r.deep_view() == resolved_imports(rv.take(i as int), base_dir@),
        decreases raws@.len() - i,
    {
        assert(rv.take(i + 1).drop_last() =~= rv.take(i as int));
        assert(rv[i as int] == raws@[i as int]@);
        match resolve_import_path(raws[i].as_str(), base_dir) {
            Some(p) => {
                let ghost before = r.deep_view();
                r.push(p);
                assert(r.deep_view() =~= before.push(r@[r@.len() - 1]@));
            },
            None => {},
        }
        i += 1;
    }
    assert(rv.take(i as int) =~= rv);
    r
}

} // verus!
