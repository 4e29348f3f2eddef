//! The plain text of a node label written with a little HTML: line-break
//! tags become new lines, other tags go, and the common entities are read.
use vstd::prelude::*;
use crate::color::{trim_bounds, trimmed};
use crate::style::EditableTextVariant;
use crate::text::{chars_of, split_chars, split_on, string_of};

verus! {

broadcast use vstd::seq_lib::group_seq_properties;

/// `s` with every occurrence of `pat` replaced by `rep`, the occurrences
/// taken from the left without overlapping (as `str::replace` does for a
/// non-empty pattern).
pub open spec fn replaced(s: Seq<char>, pat: Seq<char>, rep: Seq<char>) -> Seq<char>
    decreases s.len(),
{
    if pat.len() == 0 || s.len() < pat.len() {
        s
    } else if s.take(pat.len() as int) == pat {
        rep + replaced(s.skip(pat.len() as int), pat, rep)
    } else {
        seq![s[0]] + replaced(s.skip(1), pat, rep)
    }
}

fn starts_at(s: &Vec<char>, i: usize, pat: &Vec<char>) -> (b: bool)
    requires
        i <= s@.len(),
    ensures
        b == (s@.len() - i >= pat@.len() && s@.skip(i as int).take(pat@.len() as int) == pat@),
{
    if s.len() - i < pat.len() {
        return false;
    }
    let mut j: usize = 0;
    while j < pat.len()
        invariant
            i + pat@.len() <= s@.len(),
            s@.len() <= usize::MAX,
            j <= pat@.len(),
            forall|k: int| 0 <= k < j ==> s@[i + k] == pat@[k],
        decreases pat@.len() - j,
    {
        if s[i + j] != pat[j] {
            assert(s@.skip(i as int).take(pat@.len() as int)[j as int] != pat@[j as int]);
            return false;
        }
        j = j + 1;
    }
    assert(s@.skip(i as int).take(pat@.len() as int) =~= pat@);
    true
}

/// Every occurrence of `pat` (not empty) in `s` replaced by `rep`.
pub fn replace_all(s: &Vec<char>, pat: &Vec<char>, rep: &Vec<char>) -> (r: Vec<char>)
    requires
        pat@.len() > 0,
    ensures
        r@ == replaced(s@, pat@, rep@),
{
    let mut out: Vec<char> = Vec::new();
    let mut i: usize = 0;
    while i < s.len()
        invariant
            i <= s@.len(),
            pat@.len() > 0,
            out@ + replaced(s@.skip(i as int), pat@, rep@) == replaced(s@, pat@, rep@),
        decreases s@.len() - i,
    {
        let ghost rest = s@.skip(i as int);
        if starts_at(s, i, pat) {
            let mut k: usize = 0;
            let ghost start = out@;
            while k < rep.len()
                invariant
                    k <= rep@.len(),
                    out@ == start + rep@.take(k as int),
                decreases rep@.len() - k,
            {
                out.push(rep[k]);
                assert(rep@.take(k + 1) =~= rep@.take(k as int).push(rep@[k as int]));
                k = k + 1;
            }
            proof {
                assert(rep@.take(rep@.len() as int) =~= rep@);
                assert(rest.skip(pat@.len() as int) =~= s@.skip(i + pat@.len()));
                assert(start + rep@ + replaced(s@.skip(i + pat@.len()), pat@, rep@) =~= start + (rep@
                    + replaced(rest.skip(pat@.len() as int), pat@, rep@)));
            }
            i = i + pat.len();
        } else {
            let ghost start = out@;
            out.push(s[i]);
            proof {
                assert(rest.skip(1) =~= s@.skip(i + 1));
                if rest.len() < pat@.len() {
                    assert(replaced(rest, pat@, rep@) == rest);
                    assert(rest =~= seq![rest[0]] + rest.skip(1));
                    assert(replaced(rest.skip(1), pat@, rep@) == rest.skip(1));
                }
                assert(start.push(s@[i as int]) + replaced(s@.skip(i + 1), pat@, rep@) =~= start + (seq![
                    rest[0],
                ] + replaced(rest.skip(1), pat@, rep@)));
            }
            i = i + 1;
        }
    }
    proof {
        assert(s@.skip(s@.len() as int) =~= Seq::<char>::empty());
        assert(out@ + Seq::<char>::empty() =~= out@);
    }
    out
}

/// `s` without its tags: `<` opens a tag, `>` closes one, both are dropped,
/// and so is every character inside a tag.
pub open spec fn untagged(s: Seq<char>, in_tag: bool) -> Seq<char>
    decreases s.len(),
{
    if s.len() == 0 {
        s
    } else if s[0] == '<' {
        untagged(s.skip(1), true)
    } else if s[0] == '>' {
        untagged(s.skip(1), false)
    } else if in_tag {
        untagged(s.skip(1), true)
    } else {
        seq![s[0]] + untagged(s.skip(1), false)
    }
}

fn drop_tags(s: &Vec<char>) -> (r: Vec<char>)
    ensures
        r@ == untagged(s@, false),
{
    let mut out: Vec<char> = Vec::new();
    let mut in_tag = false;
    let mut i: usize = 0;
    while i < s.len()
        invariant
            i <= s@.len(),
            out@ + untagged(s@.skip(i as int), in_tag) == untagged(s@, false),
        decreases s@.len() - i,
    {
        let ghost start = out@;
        let ghost rest = s@.skip(i as int);
        proof {
            assert(rest.skip(1) =~= s@.skip(i + 1));
        }
        let c = s[i];
        if c == '<' {
            in_tag = true;
        } else if c == '>' {
            in_tag = false;
        } else if !in_tag {
            out.push(c);
            proof {
                assert(start.push(c) + untagged(s@.skip(i + 1), false) =~= start + (seq![c] + untagged(
                    rest.skip(1),
                    false,
                )));
            }
        }
        i = i + 1;
    }
    proof {
        assert(s@.skip(s@.len() as int) =~= Seq::<char>::empty());
        assert(out@ + Seq::<char>::empty() =~= out@);
    }
    out
}

/// The plain text of a label: the line-break tags `<br>`, `<br/>`,
/// `<br />` and the closing tags `</div>`, `</p>`, `</li>` become new
/// lines, the tags left are dropped, then `&nbsp;`, `&amp;`, `&lt;` and
/// `&gt;` are read, in that order.
pub open spec fn plain_text(value: Seq<char>) -> Seq<char> {
    let nl = seq!['\n'];
    let broken = replaced(
        replaced(
            replaced(
                replaced(replaced(replaced(value, "<br>"@, nl), "<br/>"@, nl), "<br />"@, nl),
                "</div>"@,
                nl,
            ),
            "</p>"@,
            nl,
        ),
        "</li>"@,
        nl,
    );
    let text = untagged(broken, false);
    replaced(replaced(replaced(replaced(text, "&nbsp;"@, " "@), "&amp;"@, "&"@), "&lt;"@, "<"@), "&gt;"@, ">"@)
}

fn pattern(p: &str) -> (v: Vec<char>)
    requires
        p@.len() > 0,
    ensures
        v@ == p@,
        v@.len() > 0,
{
    chars_of(p)
}

/// The plain text of a label written with a little HTML.
pub fn strip_html(value: &str) -> (s: String)
    ensures
        s@ == plain_text(value@),
{
    proof {
        reveal_strlit("<br>");
        reveal_strlit("<br/>");
        reveal_strlit("<br />");
        reveal_strlit("</div>");
        reveal_strlit("</p>");
        reveal_strlit("</li>");
        reveal_strlit("&nbsp;");
        reveal_strlit("&amp;");
        reveal_strlit("&lt;");
        reveal_strlit("&gt;");
        reveal_strlit("\n");
    }
    let nl = chars_of("\n");
    assert(nl@ == seq!['\n']);
    let v = chars_of(value);
    let v = replace_all(&v, &pattern("<br>"), &nl);
    let v = replace_all(&v, &pattern("<br/>"), &nl);
    let v = replace_all(&v, &pattern("<br />"), &nl);
    let v = replace_all(&v, &pattern("</div>"), &nl);
    let v = replace_all(&v, &pattern("</p>"), &nl);
    let v = replace_all(&v, &pattern("</li>"), &nl);
    let v = drop_tags(&v);
    let v = replace_all(&v, &pattern("&nbsp;"), &chars_of(" "));
    let v = replace_all(&v, &pattern("&amp;"), &chars_of("&"));
    let v = replace_all(&v, &pattern("&lt;"), &chars_of("<"));
    let v = replace_all(&v, &pattern("&gt;"), &chars_of(">"));
    string_of(&v)
}

/// How many of `lines` hold more than white space.
pub open spec fn shown_count(lines: Seq<Seq<char>>) -> nat
    decreases lines.len(),
{
    if lines.len() == 0 {
        0
    } else if trimmed(lines.last()).len() > 0 {
        shown_count(lines.drop_last()) + 1
    } else {
        shown_count(lines.drop_last())
    }
}

/// The length of the longest of `lines` once trimmed (0 for none).
pub open spec fn longest_shown(lines: Seq<Seq<char>>) -> nat
    decreases lines.len(),
{
    if lines.len() == 0 {
        0
    } else {
        let rest = longest_shown(lines.drop_last());
        let here = trimmed(lines.last()).len();
        if here > rest {
            here
        } else {
            rest
        }
    }
}

pub open spec fn at_least_one(n: nat) -> nat {
    if n == 0 {
        1
    } else {
        n
    }
}

/// How a label is measured: the number of lines of its plain text that
/// hold more than white space, and the number of characters of the
/// longest of them trimmed, each at least one.
pub fn label_lines(label: &str) -> (r: (usize, usize))
    ensures
        r.0 == at_least_one(shown_count(split_on(plain_text(label@), '\n'))),
        r.1 == at_least_one(longest_shown(split_on(plain_text(label@), '\n'))),
{
    let text = strip_html(label);
    let chars = chars_of(text.as_str());
    let lines = split_chars(&chars, '\n');
    let ghost pieces = split_on(plain_text(label@), '\n');
    let mut count: usize = 0;
    let mut longest: usize = 0;
    let mut i: usize = 0;
    while i < lines.len()
        invariant
            i <= lines@.len(),
            lines@.len() == pieces.len(),
            forall|j: int| 0 <= j < lines@.len() ==> #[trigger] lines@[j]@ == pieces[j],
            count == shown_count(pieces.take(i as int)),
            longest == longest_shown(pieces.take(i as int)),
            count <= i,
            longest <= usize::MAX,
        decreases lines@.len() - i,
    {
        proof {
            assert(pieces.take(i + 1).drop_last() =~= pieces.take(i as int));
            assert(pieces.take(i + 1).last() == pieces[i as int]);
        }
        let (start, end) = trim_bounds(&lines[i]);
        let here = end - start;
        if here > 0 {
            count = count + 1;
        }
        if here > longest {
            longest = here;
        }
        i = i + 1;
    }
    proof {
        assert(pieces.take(lines@.len() as int) =~= pieces);
    }
    (if count == 0 {
        1
    } else {
        count
    }, if longest == 0 {
        1
    } else {
        longest
    })
}

/// What an editor leaves behind when its text is cleared: a lone `<br>`,
/// and for the full editor also `<p><br></p>` or `<div><br></div>`, each
/// with white space around it.
pub open spec fn is_empty_markup(html: Seq<char>, variant: EditableTextVariant) -> bool {
    let t = trimmed(html);
    ||| t == "<br>"@
    ||| (variant == EditableTextVariant::Full && (t == "<p><br></p>"@ || t == "<div><br></div>"@))
}

fn same_chars(v: &Vec<char>, start: usize, end: usize, p: &Vec<char>) -> (b: bool)
    requires
        start <= end <= v@.len(),
    ensures
        b == (v@.subrange(start as int, end as int) == p@),
{
    if end - start != p.len() {
        return false;
    }
    let mut k: usize = 0;
    while k < p.len()
        invariant
            start <= end <= v@.len(),
            end - start == p@.len(),
            k <= p@.len(),
            forall|j: int| 0 <= j < k ==> v@[start + j] == p@[j],
        decreases p@.len() - k,
    {
        if v[start + k] != p[k] {
            assert(v@.subrange(start as int, end as int)[k as int] != p@[k as int]);
            return false;
        }
        k = k + 1;
    }
    assert(v@.subrange(start as int, end as int) =~= p@);
    true
}

/// The text an editor hands back once editing ends: empty when all that is
/// left is the markup of a cleared editor, else the markup unchanged.
pub fn cleaned_markup(html: &str, variant: EditableTextVariant) -> (s: String)
    ensures
        s@ == (if is_empty_markup(html@, variant) {
            Seq::<char>::empty()
        } else {
            html@
        }),
{
    let v = chars_of(html);
    let (start, end) = trim_bounds(&v);
    let empty = same_chars(&v, start, end, &chars_of("<br>")) || (variant == EditableTextVariant::Full && (same_chars(
        &v,
        start,
        end,
        &chars_of("<p><br></p>"),
    ) || same_chars(&v, start, end, &chars_of("<div><br></div>"))));
    if empty {
        String::new()
    } else {
        html.to_owned()
    }
}

} // verus!
