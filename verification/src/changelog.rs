//! Assembly of the new changelog text for a version bump.
//!
//! The existing text is trimmed of surrounding whitespace and normalized
//! to LF line endings; then the version-entry line and one line per change
//! message are appended, each line closed by a newline.

use vstd::prelude::*;

use crate::io::NormalizeLineEndings;
use crate::io::Trim;
use crate::io::push_char;
use crate::io::spec_trimmed;
use crate::io::without_cr;

verus! {

/// The change-message lines `items[i..]`, each closed by a newline.
pub open spec fn spec_item_lines(items: Seq<Seq<char>>, i: int) -> Seq<char>
    decreases items.len() - i,
{
    if i < 0 || i >= items.len() {
        seq![]
    } else {
        items[i] + seq!['\n'] + spec_item_lines(items, i + 1)
    }
}

/// The whole new changelog text: the cleaned-up existing text, a blank
/// separator when it is non-empty, the version-entry line, and one line
/// per change message.
pub open spec fn spec_changelog_text(
    existing: Seq<char>,
    entry: Seq<char>,
    items: Seq<Seq<char>>,
) -> Seq<char> {
    let base = without_cr(spec_trimmed(existing));
    let head = if base.len() > 0 {
        base + seq!['\n']
    } else {
        base
    };
    head + entry + seq!['\n'] + spec_item_lines(items, 0)
}

/// Builds the new changelog text from the existing text, the already
/// rendered version-entry line, and the change-message lines.
pub fn build_changelog_text(existing: &str, entry: &str, items: &Vec<String>) -> (r: String)
    ensures
        r@ == spec_changelog_text(existing@, entry@, items.deep_view()),
{
    let ghost dv = items.deep_view();
    let mut text = existing.to_owned();
    text.trim();
    text.normalize_line_endings();
    if text.as_str().unicode_len() > 0 {
        push_char(&mut text, '\n');
    }
    text.append(entry);
    push_char(&mut text, '\n');
    let n = items.len();
    let mut i: usize = 0;
    proof {
        assert(text@ + spec_item_lines(dv, 0) =~= spec_changelog_text(existing@, entry@, dv));
    }
    while i < n
        invariant
            i <= n,
            n == items@.len(),
            dv == items.deep_view(),
            text@ + spec_item_lines(dv, i as int) == spec_changelog_text(existing@, entry@, dv),
        decreases n - i,
    {
        let ghost before = text@;
        text.append(items[i].as_str());
        push_char(&mut text, '\n');
        proof {
            assert(items.deep_view()[i as int] == items@[i as int]@);
            assert(text@ =~= before + dv[i as int] + seq!['\n']);
            assert(text@ + spec_item_lines(dv, i + 1) =~= spec_changelog_text(
                existing@,
                entry@,
                dv,
            ));
        }
        i = i + 1;
    }
    proof {
        assert(spec_item_lines(dv, n as int) =~= Seq::<char>::empty());
        assert(text@ =~= spec_changelog_text(existing@, entry@, dv));
    }
    text
}

} // verus!
