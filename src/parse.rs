use vstd::prelude::*;
use vstd::string::*;
use crate::number::{parse_unsigned, parse_unsigned_at};
use crate::story::{Branch, BranchModel, Node, NodeModel};
use crate::text::{chars_of, in_bounds, item_spans, items, line_spans, lines_of, span};

verus! {

/// Whether `l` is the line `+++` that ends a node file's header.
pub open spec fn is_sentinel(l: Seq<char>) -> bool {
    l == seq!['+', '+', '+']
}

/// How many lines stand before the first `+++` line: all of them if there is none.
pub open spec fn lines_before_sentinel(ls: Seq<Seq<char>>) -> nat
    decreases ls.len(),
{
    if ls.len() == 0 || is_sentinel(ls[0]) {
        0
    } else {
        1 + lines_before_sentinel(ls.drop_first())
    }
}

/// How many lines the header of a node file takes: the first line always, whatever it
/// holds, and the lines after it up to the first `+++` line (all of them if none).
pub open spec fn header_len(ls: Seq<Seq<char>>) -> nat {
    if ls.len() == 0 {
        0
    } else {
        1 + lines_before_sentinel(ls.drop_first())
    }
}

/// Lines put back together with a line feed between each two.
pub open spec fn join_lines(ls: Seq<Seq<char>>) -> Seq<char>
    decreases ls.len(),
{
    if ls.len() == 0 {
        Seq::empty()
    } else if ls.len() == 1 {
        ls[0]
    } else {
        join_lines(ls.drop_last()) + seq!['\n'] + ls.last()
    }
}

/// The body of a node file: the lines after the first `+++` line that follows the first
/// line, joined; empty where there is no such line.
pub open spec fn content_of(ls: Seq<Seq<char>>) -> Seq<char> {
    let h = header_len(ls);
    if h < ls.len() {
        join_lines(ls.subrange(h + 1 as int, ls.len() as int))
    } else {
        Seq::empty()
    }
}

/// The branches that a header declares: one per item of its first line, whose target is
/// that item read as an unsigned number; where the header has a second line, its items
/// are the labels, paired by position.
pub open spec fn branches_of(ls: Seq<Seq<char>>) -> Seq<BranchModel> {
    let h = header_len(ls);
    if h == 0 {
        Seq::empty()
    } else {
        let targets = items(ls[0]);
        Seq::new(
            targets.len(),
            |i: int|
                BranchModel {
                    target: parse_unsigned(targets[i]),
                    label: if h >= 2 && i < items(ls[1]).len() {
                        Some(items(ls[1])[i])
                    } else {
                        None
                    },
                },
        )
    }
}

/// The node that a file named `name` with text `text` describes.
pub open spec fn node_of(name: Seq<char>, text: Seq<char>) -> NodeModel {
    let ls = lines_of(text);
    NodeModel { name, branches: branches_of(ls), content: content_of(ls) }
}

/// The header length is the position of the first `+++` line, or the number of lines.
proof fn lemma_lines_before_sentinel(ls: Seq<Seq<char>>, k: int)
    requires
        0 <= k <= ls.len(),
        forall|j: int| 0 <= j < k ==> !is_sentinel(#[trigger] ls[j]),
        k == ls.len() || is_sentinel(ls[k]),
    ensures
        lines_before_sentinel(ls) == k,
    decreases k,
{
    if k > 0 {
        assert forall|j: int| 0 <= j < k - 1 implies !is_sentinel(#[trigger] ls.drop_first()[j]) by {
            assert(ls.drop_first()[j] == ls[j + 1]);
        }
        lemma_lines_before_sentinel(ls.drop_first(), k - 1);
    }
}

/// The header length is the position of the first `+++` line after the first line, or
/// the number of lines.
proof fn lemma_header_len(ls: Seq<Seq<char>>, k: int)
    requires
        1 <= k <= ls.len(),
        forall|j: int| 1 <= j < k ==> !is_sentinel(#[trigger] ls[j]),
        k == ls.len() || is_sentinel(ls[k]),
    ensures
        header_len(ls) == k,
{
    let rest = ls.drop_first();
    assert forall|j: int| 0 <= j < k - 1 implies !is_sentinel(#[trigger] rest[j]) by {
        assert(rest[j] == ls[j + 1]);
    }
    assert(k < ls.len() ==> rest[k - 1] == ls[k]);
    lemma_lines_before_sentinel(rest, k - 1);
}

/// Whether the line at `r` is the `+++` line.
fn is_sentinel_at(chars: &Vec<char>, r: (usize, usize)) -> (b: bool)
    requires
        in_bounds(r, chars@.len()),
    ensures
        b == is_sentinel(span(chars@, r)),
{
    let ghost s = span(chars@, r);
    let ghost plus = seq!['+', '+', '+'];
    if r.1 - r.0 != 3 {
        assert(s.len() != plus.len());
        return false;
    }
    let b = chars[r.0] == '+' && chars[r.0 + 1] == '+' && chars[r.0 + 2] == '+';
    assert(s[0] == chars@[r.0 as int] && s[1] == chars@[r.0 + 1] && s[2] == chars@[r.0 + 2]);
    if b {
        assert(s =~= plus);
    } else {
        assert(s[0] != plus[0] || s[1] != plus[1] || s[2] != plus[2]);
    }
    b
}

/// The text at `r`, as a new string.
fn copy_span(text: &str, chars: &Vec<char>, r: (usize, usize)) -> (s: String)
    requires
        chars@ == text@,
        in_bounds(r, chars@.len()),
    ensures
        s@ == span(chars@, r),
{
    String::from_str(text.substring_char(r.0, r.1))
}

/// Reads the text of a node file named `name`.
pub fn parse_node(name: String, text: &str) -> (n: Node)
    ensures
        n@ == node_of(name@, text@),
{
    let chars = chars_of(text);
    let lines = line_spans(&chars);
    let ghost ls = lines_of(chars@);
    let mut h: usize = if lines.len() > 0 {
        1
    } else {
        0
    };
    while h < lines.len() && !is_sentinel_at(&chars, lines[h])
        invariant
            h <= lines@.len() == ls.len(),
            ls == lines_of(chars@),
            forall|k: int|
                0 <= k < lines@.len() ==> in_bounds(#[trigger] lines@[k], chars@.len()) && span(
                    chars@,
                    lines@[k],
                ) == ls[k],
            lines@.len() > 0 ==> h >= 1,
            forall|j: int| 1 <= j < h ==> !is_sentinel(#[trigger] ls[j]),
        decreases lines@.len() - h,
    {
        h = h + 1;
    }
    proof {
        if h >= 1 {
            lemma_header_len(ls, h as int);
        }
    }
    let mut branches: Vec<Branch> = Vec::new();
    if h >= 1 {
        let targets = item_spans(&chars, lines[0].0, lines[0].1);
        let labels = if h >= 2 {
            Some(item_spans(&chars, lines[1].0, lines[1].1))
        } else {
            None
        };
        let mut i: usize = 0;
        while i < targets.len()
            invariant
                h == header_len(ls),
                ls == lines_of(chars@),
                chars@ == text@,
                1 <= h <= ls.len(),
                i <= targets@.len(),
                targets@.len() == items(ls[0]).len(),
                forall|k: int|
                    0 <= k < targets@.len() ==> in_bounds(#[trigger] targets@[k], chars@.len())
                        && span(chars@, targets@[k]) == items(ls[0])[k],
                h >= 2 <==> labels is Some,
                labels is Some ==> labels->0@.len() == items(ls[1]).len(),
                labels is Some ==> forall|k: int|
                    0 <= k < labels->0@.len() ==> in_bounds(#[trigger] labels->0@[k], chars@.len())
                        && span(chars@, labels->0@[k]) == items(ls[1])[k],
                branches@.map_values(|b: Branch| b@) =~= branches_of(ls).take(i as int),
            decreases targets@.len() - i,
        {
            let target = parse_unsigned_at(&chars, targets[i].0, targets[i].1);
            let label = match &labels {
                Some(ls) => {
                    if i < ls.len() {
                        Some(copy_span(text, &chars, ls[i]))
                    } else {
                        None
                    }
                },
                None => None,
            };
            let branch = Branch { target, label };
            assert(branch@ == branches_of(ls)[i as int]);
            let ghost before = branches@;
            branches.push(branch);
            assert(branches@.map_values(|b: Branch| b@) =~= before.map_values(|b: Branch| b@).push(
                branch@,
            ));
            assert(branches_of(ls).take(i + 1) =~= branches_of(ls).take(i as int).push(
                branches_of(ls)[i as int],
            ));
            i = i + 1;
        }
    }
    let mut content = String::new();
    if h < lines.len() {
        let mut k: usize = h + 1;
        while k < lines.len()
            invariant
                h < k <= lines@.len() == ls.len(),
                chars@ == text@,
                forall|j: int|
                    0 <= j < lines@.len() ==> in_bounds(#[trigger] lines@[j], chars@.len()) && span(
                        chars@,
                        lines@[j],
                    ) == ls[j],
                content@ == join_lines(ls.subrange(h + 1, k as int)),
            decreases lines@.len() - k,
        {
            proof {
                reveal_strlit("\n");
            }
            if k > h + 1 {
                content.append("\n");
            }
            let line = copy_span(text, &chars, lines[k]);
            content.append(line.as_str());
            assert(ls.subrange(h + 1, k + 1).drop_last() =~= ls.subrange(h + 1, k as int));
            k = k + 1;
        }
    }
    assert(branches@.map_values(|b: Branch| b@) =~= branches_of(ls));
    assert(h < ls.len() ==> content@ == content_of(ls));
    Node { name, branches, content }
}

/// The node that a branch token refers to: the token read as an unsigned number, or
/// `None` where it is not one.
pub fn parse_target(token: &str) -> (r: Option<usize>)
    ensures
        r == parse_unsigned(token@),
{
    let chars = chars_of(token);
    assert(chars@.subrange(0, chars@.len() as int) =~= chars@);
    parse_unsigned_at(&chars, 0, chars.len())
}

/// A node's content is the text after the first `+++` line that follows the file's first
/// line (which is always the header), lines joined by line feeds and the `+++` line left
/// out; a file with no such line has empty content.
pub proof fn content_follows_sentinel(name: Seq<char>, text: Seq<char>)
    ensures
        forall|k: int|
            1 <= k < lines_of(text).len() && is_sentinel(#[trigger] lines_of(text)[k]) && (forall|
                j: int,
            |
                1 <= j < k ==> !is_sentinel(#[trigger] lines_of(text)[j])) ==> node_of(
                name,
                text,
            ).content == join_lines(lines_of(text).subrange(k + 1, lines_of(text).len() as int)),
        (forall|j: int|
            1 <= j < lines_of(text).len() ==> !is_sentinel(#[trigger] lines_of(text)[j]))
            ==> node_of(name, text).content == Seq::<char>::empty(),
{
    let ls = lines_of(text);
    assert forall|k: int|
        1 <= k < ls.len() && is_sentinel(#[trigger] ls[k]) && (forall|j: int|
            1 <= j < k ==> !is_sentinel(#[trigger] ls[j])) implies node_of(name, text).content
        == join_lines(ls.subrange(k + 1, ls.len() as int)) by {
        lemma_header_len(ls, k);
    }
    if ls.len() > 0 && forall|j: int| 1 <= j < ls.len() ==> !is_sentinel(#[trigger] ls[j]) {
        lemma_header_len(ls, ls.len() as int);
    }
}

/// The first line of a file is its header line, whatever it holds: each of its
/// `", "`-separated tokens gives one branch, in order; a token that reads as an unsigned
/// number targets that value, and any other token gives a branch without a target.
pub proof fn targets_follow_tokens(name: Seq<char>, text: Seq<char>)
    requires
        lines_of(text).len() > 0,
    ensures
        node_of(name, text).branches.len() == items(lines_of(text)[0]).len(),
        forall|i: int|
            0 <= i < items(lines_of(text)[0]).len() ==> (#[trigger] node_of(name, text).branches[i]).target
                == parse_unsigned(items(lines_of(text)[0])[i]),
{
    assert(header_len(lines_of(text)) >= 1);
}

} // verus!
