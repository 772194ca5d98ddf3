//! Display formatting for package rows: the required-version specifier
//! stripped of the package name and extras, and the installed version.

use vstd::prelude::*;
use vstd::string::StrSliceExecFns;
use vstd::string::StringExecFns;

use crate::project_state::Package;
use crate::textscan::{char_eq_pred, drop_leading, is_whitespace_char, split_on, trim, trim_spec};

verus! {

/// Whether a character is white space or an opening bracket; what the
/// required-version formatting strips from the front.
pub open spec fn ws_or_bracket_pred() -> spec_fn(char) -> bool {
    |c: char| is_whitespace_char(c) || c == '['
}

/// The displayed required version for a package: everything of the specifier
/// after the name, with leading white space or extras brackets dropped and
/// anything up to the last closing bracket gone, trimmed; a bare name (or no
/// specifier at all) displays as a star.
pub open spec fn required_version_spec(p: Package) -> Seq<char> {
    match p.required_version {
        Option::Some(v) => {
            if v@.len() > p.name@.len() {
                let rest = v@.skip(p.name@.len() as int);
                let stripped = drop_leading(rest, ws_or_bracket_pred());
                let parts = split_on(stripped, char_eq_pred(']'));
                trim_spec(parts.last())
            } else {
                "*"@
            }
        },
        Option::None => "*"@,
    }
}

/// Format the required-version specifier of a package for display.
pub fn format_required_version(package: &Package) -> (r: String)
    ensures
        r@ == required_version_spec(*package),
{
    match &package.required_version {
        Option::Some(v) => {
            let vlen: usize = v.as_str().unicode_len();
            let nlen: usize = package.name.as_str().unicode_len();
            if vlen > nlen {
                let rest = v.as_str().substring_char(nlen, vlen);
                proof {
                    assert(rest@ =~= v@.skip(package.name@.len() as int));
                }
                let stripped = strip_leading_ws_bracket(rest);
                let parts = crate::textscan::split_char(stripped, ']');
                proof {
                    vstd::std_specs::vec::axiom_spec_len(&parts);
                    crate::textscan::lemma_find_first_bounds(
                        stripped@,
                        char_eq_pred(']'),
                    );
                    assert(parts.deep_view().len() >= 1);
                }
                let last = &parts[parts.len() - 1];
                proof {
                    assert(parts.deep_view()[parts@.len() - 1] == parts@[parts@.len() - 1]@);
                    assert(split_on(stripped@, char_eq_pred(']')).last() == last@);
                }
                String::from_str(trim(last.as_str()))
            } else {
                String::from_str("*")
            }
        },
        Option::None => String::from_str("*"),
    }
}

/// Drop leading white space and opening brackets.
fn strip_leading_ws_bracket(s: &str) -> (r: &str)
    ensures
        r@ == drop_leading(s@, ws_or_bracket_pred()),
{
    let len: usize = s.unicode_len();
    let mut start: usize = 0;
    proof {
        assert(s@.skip(0) =~= s@);
    }
    while start < len && (s.get_char(start).is_whitespace() || s.get_char(start) == '[')
        invariant
            start <= len,
            len == s@.len(),
            drop_leading(s@, ws_or_bracket_pred()) == drop_leading(
                s@.skip(start as int),
                ws_or_bracket_pred(),
            ),
        decreases len - start,
    {
        proof {
            let suf = s@.skip(start as int);
            assert(suf[0] == s@[start as int]);
            assert(suf.drop_first() =~= s@.skip(start as int + 1));
        }
        start = start + 1;
    }
    proof {
        let suf = s@.skip(start as int);
        if start < len {
            assert(suf[0] == s@[start as int]);
            assert(drop_leading(suf, ws_or_bracket_pred()) == suf);
        } else {
            assert(suf =~= Seq::<char>::empty());
        }
        assert(s@.skip(start as int) =~= s@.subrange(start as int, len as int));
    }
    s.substring_char(start, len)
}

/// The displayed installed version: the version behind a `v`, or a fixed
/// phrase where nothing is locked.
pub open spec fn installed_version_spec(p: Package) -> Seq<char> {
    match p.installed_version {
        Option::Some(v) => seq!['v'] + v@,
        Option::None => "not locked"@,
    }
}

/// Format the installed version of a package for display.
pub fn format_installed_version(package: &Package) -> (r: String)
    ensures
        r@ == installed_version_spec(*package),
{
    match &package.installed_version {
        Option::Some(v) => {
            proof {
                reveal_strlit("v");
                assert("v"@ =~= seq!['v']);
            }
            let mut s = String::from_str("v");
            s.append(v.as_str());
            s
        },
        Option::None => String::from_str("not locked"),
    }
}

} // verus!
