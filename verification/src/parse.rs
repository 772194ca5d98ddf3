//! Parsers for tool output and manifest text: the installed-Python listing,
//! the name and version lines of a project manifest, and an interpreter's
//! version banner.

use vstd::prelude::*;
use vstd::string::StrSliceExecFns;
use vstd::string::StringExecFns;

use crate::project_state::PythonInstallation;
use crate::textscan::{
    char_eq_pred, contains_seq, contains_sub, find_first, lemma_find_first_bounds, lines_spec,
    split_char, split_lines, split_on, split_whitespace_spec, split_whitespace_vec,
    starts_with_spec, strip_prefix_str, trim, trim_spec,
};

verus! {

/// What one listing line yields: a version, an executable path, and whether
/// the interpreter is managed by the package manager.
pub ghost struct ListedPython {
    pub version: Seq<char>,
    pub path: Seq<char>,
    pub is_managed: bool,
}

/// The interpreter a listing line describes, if any: the line, trimmed, must
/// have at least two white-space-separated columns, the first starting with
/// the reference-implementation prefix. The version is what stands between
/// that prefix and the next dash; the path is the second column; the
/// interpreter counts as managed when its path runs through the package
/// manager's store.
pub open spec fn listed_python(line: Seq<char>) -> Option<ListedPython> {
    let t = trim_spec(line);
    if t.len() == 0 {
        Option::None
    } else {
        let parts = split_whitespace_spec(t);
        if parts.len() >= 2 && starts_with_spec(parts[0], "cpython-"@) {
            let v = parts[0].skip("cpython-"@.len() as int);
            let version = v.take(find_first(v, char_eq_pred('-')));
            let path = parts[1];
            let managed = contains_seq(path, ".local/share/uv"@) || contains_seq(
                path,
                "uv/python"@,
            );
            Option::Some(ListedPython { version, path, is_managed: managed })
        } else {
            Option::None
        }
    }
}

/// The interpreters a whole listing describes, line by line.
pub open spec fn python_list_spec(lines: Seq<Seq<char>>) -> Seq<ListedPython>
    decreases lines.len(),
{
    if lines.len() == 0 {
        Seq::empty()
    } else {
        (match listed_python(lines[0]) {
            Option::Some(e) => seq![e],
            Option::None => Seq::<ListedPython>::empty(),
        }) + python_list_spec(lines.drop_first())
    }
}

/// Extending a listing by one line extends what it describes.
proof fn lemma_python_list_push(lines: Seq<Seq<char>>, x: Seq<char>)
    ensures
        python_list_spec(lines.push(x)) == python_list_spec(lines) + (match listed_python(x) {
            Option::Some(e) => seq![e],
            Option::None => Seq::<ListedPython>::empty(),
        }),
    decreases lines.len(),
{
    let xe = match listed_python(x) {
        Option::Some(e) => seq![e],
        Option::None => Seq::<ListedPython>::empty(),
    };
    if lines.len() == 0 {
        assert(lines.push(x)[0] == x);
        assert(lines.push(x).drop_first() =~= Seq::<Seq<char>>::empty());
        assert(python_list_spec(Seq::<Seq<char>>::empty()) == Seq::<ListedPython>::empty());
        assert(python_list_spec(lines.push(x)) =~= python_list_spec(lines) + xe);
    } else {
        assert(lines.push(x)[0] == lines[0]);
        assert(lines.push(x).drop_first() =~= lines.drop_first().push(x));
        lemma_python_list_push(lines.drop_first(), x);
        assert(python_list_spec(lines.push(x)) =~= python_list_spec(lines) + xe);
    }
}

/// Parse the listing of installed Python versions, one interpreter per
/// well-formed line: its version, its executable path, and whether it is
/// managed. Other fields take their defaults.
pub fn parse_python_list(output: &str) -> (r: Vec<PythonInstallation>)
    ensures
        r@.len() == python_list_spec(lines_spec(output@)).len(),
        forall|k: int|
            0 <= k < r@.len() ==> {
                let e = python_list_spec(lines_spec(output@))[k];
                &&& (#[trigger] r@[k]).version@ == e.version
                &&& r@[k].path@ == e.path
                &&& r@[k].is_managed == e.is_managed
                &&& r@[k].is_default == false
                &&& r@[k].implementation@ == "CPython"@
                &&& r@[k].architecture is None
            },
{
    let lines = split_lines(output);
    let ghost lviews = lines.deep_view();
    let ghost goal = python_list_spec(lviews);
    let mut r: Vec<PythonInstallation> = Vec::new();
    let mut i: usize = 0;
    proof {
        assert(lviews.take(0) =~= Seq::<Seq<char>>::empty());
        assert(python_list_spec(lviews.take(0)) =~= Seq::<ListedPython>::empty());
    }
    while i < lines.len()
        invariant
            i <= lines.len(),
            lviews == lines.deep_view(),
            lviews == lines_spec(output@),
            r@.len() == python_list_spec(lviews.take(i as int)).len(),
            forall|k: int|
                0 <= k < r@.len() ==> {
                    let e = python_list_spec(lviews.take(i as int))[k];
                    &&& (#[trigger] r@[k]).version@ == e.version
                    &&& r@[k].path@ == e.path
                    &&& r@[k].is_managed == e.is_managed
                    &&& r@[k].is_default == false
                    &&& r@[k].implementation@ == "CPython"@
                    &&& r@[k].architecture is None
                },
        decreases lines.len() - i,
    {
        proof {
            lemma_python_list_push(lviews.take(i as int), lviews[i as int]);
            assert(lviews.take(i as int + 1) =~= lviews.take(i as int).push(lviews[i as int]));
            assert(lviews[i as int] == lines.deep_view()[i as int]);
        }
        let line = trim(lines[i].as_str());
        let line_len: usize = line.unicode_len();
        if line_len == 0 {
            i = i + 1;
            continue;
        }
        let parts = split_whitespace_vec(line);
        proof {
            vstd::std_specs::vec::axiom_spec_len(&parts);
        }
        if parts.len() >= 2 {
            proof {
                assert(parts.deep_view()[0] == parts@[0]@);
                assert(parts.deep_view()[1] == parts@[1]@);
            }
            let stripped = strip_prefix_str(parts[0].as_str(), "cpython-");
            match stripped {
                Option::Some(v) => {
                    let vlen: usize = v.unicode_len();
                    let mut dash: usize = 0;
                    while dash < vlen && v.get_char(dash) != '-'
                        invariant
                            dash <= vlen,
                            vlen == v@.len(),
                            forall|t: int| 0 <= t < dash ==> v@[t] != '-',
                        decreases vlen - dash,
                    {
                        dash = dash + 1;
                    }
                    proof {
                        crate::textscan::lemma_find_first_is(
                            v@,
                            char_eq_pred('-'),
                            dash as int,
                        );
                    }
                    let version_str = v.substring_char(0, dash);
                    let path = &parts[1];
                    let managed = contains_sub(path.as_str(), ".local/share/uv") || contains_sub(
                        path.as_str(),
                        "uv/python",
                    );
                    let entry = PythonInstallation {
                        version: String::from_str(version_str),
                        path: path.clone(),
                        is_default: false,
                        is_managed: managed,
                        implementation: String::from_str("CPython"),
                        architecture: None,
                    };
                    proof {
                        let e = listed_python(lviews[i as int]);
                        assert(version_str@ =~= v@.take(find_first(v@, char_eq_pred('-'))));
                        assert(e matches Option::Some(le) && le.version == version_str@
                            && le.path == path@ && le.is_managed == managed);
                    }
                    r.push(entry);
                },
                Option::None => {
                    proof {
                        assert(listed_python(lviews[i as int]) is None);
                    }
                },
            }
        } else {
            proof {
                assert(listed_python(lviews[i as int]) is None);
            }
        }
        i = i + 1;
    }
    proof {
        assert(lviews.take(lviews.len() as int) =~= lviews);
    }
    r
}

/// The cleaned value of a manifest assignment: trimmed, then stripped of
/// double quotes, then of single quotes, at both ends.
pub open spec fn cleaned_value(v: Seq<char>) -> Seq<char> {
    crate::textscan::drop_trailing(
        crate::textscan::drop_leading(
            crate::textscan::drop_trailing(
                crate::textscan::drop_leading(trim_spec(v), char_eq_pred('"')),
                char_eq_pred('"'),
            ),
            char_eq_pred('\''),
        ),
        char_eq_pred('\''),
    )
}

/// The value extracted for a key from manifest text: scanning the lines in
/// order, the first trimmed line starting with the key and containing an
/// equals sign yields everything after the first equals sign, cleaned.
pub open spec fn extracted_value(lines: Seq<Seq<char>>, key: Seq<char>) -> Option<Seq<char>>
    decreases lines.len(),
{
    if lines.len() == 0 {
        Option::None
    } else {
        let t = trim_spec(lines[0]);
        let parts = split_on(t, char_eq_pred('='));
        if starts_with_spec(t, key) && parts.len() >= 2 {
            Option::Some(cleaned_value(parts[1]))
        } else {
            extracted_value(lines.drop_first(), key)
        }
    }
}

/// Strip every leading and trailing occurrence of a character.
fn trim_matches_char(s: &str, q: char) -> (r: &str)
    ensures
        r@ == crate::textscan::drop_trailing(
            crate::textscan::drop_leading(s@, char_eq_pred(q)),
            char_eq_pred(q),
        ),
{
    let ghost p = char_eq_pred(q);
    let len: usize = s.unicode_len();
    let mut start: usize = 0;
    proof {
        assert(s@.skip(0) =~= s@);
    }
    while start < len && s.get_char(start) == q
        invariant
            start <= len,
            len == s@.len(),
            crate::textscan::drop_leading(s@, char_eq_pred(q)) == crate::textscan::drop_leading(
                s@.skip(start as int),
                char_eq_pred(q),
            ),
        decreases len - start,
    {
        proof {
            let suf = s@.skip(start as int);
            assert(suf[0] == s@[start as int]);
            assert(suf.drop_first() =~= s@.skip(start as int + 1));
        }
        start = start + 1;
    }
    proof {
        let suf = s@.skip(start as int);
        if start < len {
            assert(suf[0] == s@[start as int]);
            assert(crate::textscan::drop_leading(suf, char_eq_pred(q)) == suf);
        } else {
            assert(suf =~= Seq::<char>::empty());
        }
    }
    let mut end: usize = len;
    while end > start && s.get_char(end - 1) == q
        invariant
            start <= end <= len,
            len == s@.len(),
            crate::textscan::drop_leading(s@, char_eq_pred(q)) == s@.skip(start as int),
            start < end ==> crate::textscan::drop_trailing(
                s@.skip(start as int),
                char_eq_pred(q),
            ) == crate::textscan::drop_trailing(
                s@.subrange(start as int, end as int),
                char_eq_pred(q),
            ),
            start == end ==> crate::textscan::drop_trailing(
                s@.skip(start as int),
                char_eq_pred(q),
            ) == s@.subrange(start as int, end as int),
        decreases end,
    {
        proof {
            let t = s@.subrange(start as int, end as int);
            assert(t.last() == s@[end - 1]);
            assert(t.drop_last() =~= s@.subrange(start as int, end as int - 1));
            if start == end - 1 {
                assert(t.drop_last() =~= Seq::<char>::empty());
                assert(crate::textscan::drop_trailing(t, char_eq_pred(q))
                    == crate::textscan::drop_trailing(t.drop_last(), char_eq_pred(q)));
                assert(crate::textscan::drop_trailing(t.drop_last(), char_eq_pred(q))
                    == t.drop_last());
                assert(s@.subrange(start as int, end as int - 1) =~= Seq::<char>::empty());
            }
        }
        end = end - 1;
    }
    proof {
        let t = s@.subrange(start as int, end as int);
        if end > start {
            assert(t.last() == s@[end - 1]);
            assert(crate::textscan::drop_trailing(t, char_eq_pred(q)) == t);
        } else {
            assert(t =~= Seq::<char>::empty());
        }
        assert(s@.skip(start as int) =~= s@.subrange(start as int, len as int));
    }
    s.substring_char(start, end)
}

/// Extract the cleaned value for a key from manifest text, scanning its
/// lines in order.
fn extract_assignment(content: &str, key: &str) -> (r: Option<String>)
    ensures
        r is Some <==> extracted_value(lines_spec(content@), key@) is Some,
        r matches Some(v) ==> (extracted_value(lines_spec(content@), key@) matches Some(w) && v@
            == w),
{
    let lines = split_lines(content);
    let ghost lviews = lines.deep_view();
    let mut i: usize = 0;
    proof {
        assert(lviews.skip(0) =~= lviews);
    }
    while i < lines.len()
        invariant
            i <= lines.len(),
            lviews == lines.deep_view(),
            lviews == lines_spec(content@),
            extracted_value(lviews, key@) == extracted_value(lviews.skip(i as int), key@),
        decreases lines.len() - i,
    {
        proof {
            assert(lviews.skip(i as int)[0] == lviews[i as int]);
            assert(lviews.skip(i as int).drop_first() =~= lviews.skip(i as int + 1));
            assert(lviews[i as int] == lines@[i as int]@);
        }
        let t = trim(lines[i].as_str());
        proof {
            assert(t@ == trim_spec(lviews[i as int]));
        }
        if crate::textscan::starts_with(t, key) {
            let parts = split_char(t, '=');
            proof {
                vstd::std_specs::vec::axiom_spec_len(&parts);
            }
            if parts.len() >= 2 {
                proof {
                    assert(parts.deep_view()[1] == parts@[1]@);
                }
                proof {
                    assert(parts@[1]@ == split_on(trim_spec(lviews[i as int]), char_eq_pred(
                        '=',
                    ))[1]);
                }
                let trimmed = trim(parts[1].as_str());
                let unquoted = trim_matches_char(trimmed, '"');
                let cleaned = trim_matches_char(unquoted, '\'');
                proof {
                    assert(cleaned@ == cleaned_value(split_on(trim_spec(lviews[i as int]),
                    char_eq_pred('='))[1]));
                    assert(extracted_value(lviews.skip(i as int), key@) == Option::Some(
                        cleaned_value(split_on(trim_spec(lviews[i as int]), char_eq_pred('='))[1]),
                    ));
                }
                return Some(String::from_str(cleaned));
            }
        }
        i = i + 1;
    }
    proof {
        assert(lviews.skip(lviews.len() as int) =~= Seq::<Seq<char>>::empty());
    }
    None
}

/// Extract the project name from manifest text.
pub fn extract_project_name(content: &str) -> (r: Option<String>)
    ensures
        r is Some <==> extracted_value(lines_spec(content@), "name"@) is Some,
        r matches Some(v) ==> (extracted_value(lines_spec(content@), "name"@) matches Some(w)
            && v@ == w),
{
    extract_assignment(content, "name")
}

/// Extract the project version from manifest text.
pub fn extract_project_version(content: &str) -> (r: Option<String>)
    ensures
        r is Some <==> extracted_value(lines_spec(content@), "version"@) is Some,
        r matches Some(v) ==> (extracted_value(lines_spec(content@), "version"@) matches Some(w)
            && v@ == w),
{
    extract_assignment(content, "version")
}

/// The version in an interpreter's version banner: the banner trimmed, its
/// leading word dropped when it is the language name, and the rest trimmed.
pub open spec fn banner_version(s: Seq<char>) -> Seq<char> {
    let t = trim_spec(s);
    if starts_with_spec(t, "Python "@) {
        trim_spec(t.skip("Python "@.len() as int))
    } else {
        t
    }
}

/// Parse the version out of an interpreter's version banner.
pub fn parse_python_version_output(s: &str) -> (r: String)
    ensures
        r@ == banner_version(s@),
{
    let t = trim(s);
    let stripped = strip_prefix_str(t, "Python ");
    match stripped {
        Option::Some(rest) => String::from_str(trim(rest)),
        Option::None => String::from_str(t),
    }
}

} // verus!
