//! The parts of page HTML the synchronization reads and writes: the body of an
//! exported page, the block that holds the editable content, and the id that
//! Microsoft Graph gives that block.

use crate::model::opt_view;
use crate::text::{
    chars_of, find_from, find_spec, lemma_find_spec, lemma_find_spec_props, lemma_rfind_below,
    lemma_rfind_below_props, occurs_at, rfind, rfind_char_before, rfind_spec, string_of_range,
};
use vstd::prelude::*;

verus! {

/// The `data-id` of the block that holds a page's editable content.
pub open spec fn content_data_id() -> Seq<char> {
    "onenote-linux-content"@
}

/// The text between the end of the opening `<body ...>` tag and the last
/// `</body>`, when both exist and are in that order.
pub open spec fn body_inner_spec(html: Seq<char>) -> Option<Seq<char>> {
    match find_spec(html, "<body"@, 0) {
        None => None,
        Some(b) => match find_spec(html, ">"@, b) {
            None => None,
            Some(g) => match rfind_spec(html, "</body>"@) {
                None => None,
                Some(e) => if g + 1 <= e {
                    Some(html.subrange(g + 1, e))
                } else {
                    None
                },
            },
        },
    }
}

/// `html` with everything between the opening `<body ...>` tag and the last
/// `</body>` replaced; `html` itself when either is missing.
pub open spec fn replace_body_inner_spec(html: Seq<char>, replacement: Seq<char>) -> Seq<char> {
    match find_spec(html, "<body"@, 0) {
        None => html,
        Some(b) => match find_spec(html, ">"@, b) {
            None => html,
            Some(g) => match rfind_spec(html, "</body>"@) {
                None => html,
                Some(e) => html.take(g + 1) + replacement + html.skip(e),
            },
        },
    }
}

/// The contents of the body of a page.
pub fn body_inner(html: &str) -> (r: Option<String>)
    ensures
        opt_view(r) == body_inner_spec(html@),
{
    let h = chars_of(html);
    let _len = h.len();
    let body_tag = chars_of("<body");
    let close = chars_of(">");
    let body_end = chars_of("</body>");
    let b = match find_from(&h, &body_tag, 0) {
        Some(b) => b,
        None => return None,
    };
    let g = match find_from(&h, &close, b) {
        Some(g) => g,
        None => return None,
    };
    let e = match rfind(&h, &body_end) {
        Some(e) => e,
        None => return None,
    };
    proof {
        reveal_strlit(">");
    }
    if g + 1 <= e {
        Some(string_of_range(&h, g + 1, e))
    } else {
        None
    }
}

/// `html` with the contents of its body replaced by `replacement`.
pub fn replace_body_inner(html: &str, replacement: &str) -> (r: String)
    ensures
        r@ == replace_body_inner_spec(html@, replacement@),
{
    let h = chars_of(html);
    let _len = h.len();
    let body_tag = chars_of("<body");
    let close = chars_of(">");
    let body_end = chars_of("</body>");
    let b = match find_from(&h, &body_tag, 0) {
        Some(b) => b,
        None => return String::from_str(html),
    };
    let g = match find_from(&h, &close, b) {
        Some(g) => g,
        None => return String::from_str(html),
    };
    let e = match rfind(&h, &body_end) {
        Some(e) => e,
        None => return String::from_str(html),
    };
    proof {
        reveal_strlit(">");
    }
    let mut out = string_of_range(&h, 0, g + 1);
    out.append(replacement);
    let rest = string_of_range(&h, e, h.len());
    out.append(rest.as_str());
    proof {
        assert(h@.subrange(0, g + 1) =~= h@.take(g + 1));
        assert(h@.subrange(e as int, h@.len() as int) =~= h@.skip(e as int));
    }
    out
}

/// The block that carries a page's editable content into Microsoft Graph:
/// the body of the exported page inside a `div` marked with the content id.
pub open spec fn content_block_spec(export_html: Seq<char>) -> Seq<char> {
    "<div data-id=\""@ + content_data_id() + "\">"@ + match body_inner_spec(export_html) {
        Some(inner) => inner,
        None => Seq::empty(),
    } + "</div>"@
}

/// The content block for an exported page.
pub fn content_block(export_html: &str) -> (r: String)
    ensures
        r@ == content_block_spec(export_html@),
{
    let mut out = String::from_str("<div data-id=\"");
    out.append("onenote-linux-content");
    out.append("\">");
    match body_inner(export_html) {
        Some(inner) => out.append(inner.as_str()),
        None => {},
    }
    out.append("</div>");
    out
}

/// The value of the attribute `name` written with the quote `q` in `tag`:
/// the text after the first ` name=q` up to the next `q`.
pub open spec fn quoted_attribute(tag: Seq<char>, name: Seq<char>, q: char) -> Option<Seq<char>> {
    let prefix = seq![' '] + name + seq!['='] + seq![q];
    match find_spec(tag, prefix, 0) {
        None => None,
        Some(s) => {
    let start = s + prefix.len();
            match find_spec(tag, seq![q], start) {
                None => None,
                Some(end) => Some(tag.subrange(start, end)),
            }
        },
    }
}

/// The value of the attribute `name` in `tag`, written in double quotes or,
/// failing that, in single quotes.
pub open spec fn attribute_value_spec(tag: Seq<char>, name: Seq<char>) -> Option<Seq<char>> {
    match quoted_attribute(tag, name, '"') {
        Some(v) => Some(v),
        None => quoted_attribute(tag, name, '\''),
    }
}

/// The value of an attribute in quotes `q`.
fn quoted_attribute_value(tag: &Vec<char>, name: &Vec<char>, q: char) -> (r: Option<String>)
    ensures
        opt_view(r) == quoted_attribute(tag@, name@, q),
{
    let mut prefix: Vec<char> = Vec::new();
    prefix.push(' ');
    let mut i: usize = 0;
    while i < name.len()
        invariant
            i <= name@.len(),
            prefix@ == seq![' '] + name@.take(i as int),
        decreases name@.len() - i,
    {
        prefix.push(name[i]);
        i = i + 1;
        assert(name@.take(i as int) =~= name@.take(i - 1).push(name@[i - 1]));
    }
    assert(name@.take(name@.len() as int) =~= name@);
    prefix.push('=');
    prefix.push(q);
    assert(prefix@ =~= seq![' '] + name@ + seq!['='] + seq![q]);
    let s = match find_from(tag, &prefix, 0) {
        Some(s) => s,
        None => return None,
    };
    let _len = tag.len();
    let start = s + prefix.len();
    let mut quote: Vec<char> = Vec::new();
    quote.push(q);
    assert(quote@ =~= seq![q]);
    match find_from(tag, &quote, start) {
        Some(end) => Some(string_of_range(tag, start, end)),
        None => None,
    }
}

/// The value of the attribute `name` in an HTML start tag.
pub fn attribute_value(tag: &str, name: &str) -> (r: Option<String>)
    ensures
        opt_view(r) == attribute_value_spec(tag@, name@),
{
    let t = chars_of(tag);
    let n = chars_of(name);
    match quoted_attribute_value(&t, &n, '"') {
        Some(v) => Some(v),
        None => quoted_attribute_value(&t, &n, '\''),
    }
}

/// The id of the content block in page HTML that Graph returned with ids: the
/// `id` attribute of the tag that carries the content marker (the
/// double-quoted marker if it occurs anywhere, else the single-quoted one).
pub open spec fn generated_content_id(html: Seq<char>) -> Option<Seq<char>> {
    let double = "data-id=\""@ + content_data_id() + "\""@;
    let single = "data-id='"@ + content_data_id() + "'"@;
    let found = match find_spec(html, double, 0) {
        Some(i) => Some(i),
        None => find_spec(html, single, 0),
    };
    match found {
        None => None,
        Some(marker) => match rfind_spec(html.take(marker), seq!['<']) {
            None => None,
            Some(tag_start) => match find_spec(html, ">"@, marker) {
                None => None,
                Some(tag_end) => attribute_value_spec(html.subrange(tag_start, tag_end + 1), "id"@),
            },
        },
    }
}

/// The id Graph gave to the content block of a page, if the page has one.
pub fn find_generated_content_id(html: &str) -> (r: Option<String>)
    ensures
        opt_view(r) == generated_content_id(html@),
{
    let h = chars_of(html);
    let _len = h.len();
    let mut double = chars_of("data-id=\"");
    double.append(&mut chars_of("onenote-linux-content"));
    double.append(&mut chars_of("\""));
    let mut single = chars_of("data-id='");
    single.append(&mut chars_of("onenote-linux-content"));
    single.append(&mut chars_of("'"));
    let marker = match find_from(&h, &double, 0) {
        Some(i) => i,
        None => match find_from(&h, &single, 0) {
            Some(i) => i,
            None => return None,
        },
    };
    let tag_start = match rfind_char_before(&h, '<', marker) {
        Some(i) => i,
        None => return None,
    };
    let close = chars_of(">");
    let tag_end = match find_from(&h, &close, marker) {
        Some(i) => i,
        None => return None,
    };
    proof {
        reveal_strlit(">");
    }
    let tag = string_of_range(&h, tag_start, tag_end + 1);
    attribute_value(tag.as_str(), "id")
}

/// Reading the body of a page whose body was replaced gives the replacement
/// back, whatever it holds, whenever the page has a `<body ...>` tag and a
/// `</body>`.
pub proof fn lemma_body_reads_back_replacement(html: Seq<char>, replacement: Seq<char>)
    requires
        find_spec(html, "<body"@, 0) is Some,
        find_spec(html, ">"@, find_spec(html, "<body"@, 0)->0) is Some,
        rfind_spec(html, "</body>"@) is Some,
    ensures
        body_inner_spec(replace_body_inner_spec(html, replacement)) == Some(replacement),
{
    reveal_strlit("<body");
    reveal_strlit(">");
    reveal_strlit("</body>");
    let open = "<body"@;
    let close = ">"@;
    let end_tag = "</body>"@;
    lemma_find_spec_props(html, open, 0);
    let b = find_spec(html, open, 0)->0;
    lemma_find_spec_props(html, close, b);
    let g = find_spec(html, close, b)->0;
    lemma_rfind_below_props(html, end_tag, html.len() as int);
    let e = rfind_spec(html, end_tag)->0;
    let l = g + 1;
    let new = html.take(l) + replacement + html.skip(e);
    assert(new == replace_body_inner_spec(html, replacement));
    assert(html[g] == '>') by {
        assert(html.subrange(g, g + 1)[0] == html[g]);
    }
    assert(g >= b + 5) by {
        if g < b + 5 {
            assert(html.subrange(b, b + 5)[g - b] == html[g]);
            assert(open[g - b] != '>');
        }
    }
    assert(occurs_at(new, open, b)) by {
        assert(new.subrange(b, b + 5) =~= html.subrange(b, b + 5));
    }
    assert forall|j: int| 0 <= j < b implies !occurs_at(new, open, j) by {
        if occurs_at(new, open, j) {
            assert(new.subrange(j, j + 5) =~= html.subrange(j, j + 5));
            assert(occurs_at(html, open, j));
        }
    }
    lemma_find_spec(new, open, 0, Some(b));
    assert(occurs_at(new, close, g)) by {
        assert(new.subrange(g, g + 1) =~= html.subrange(g, g + 1));
    }
    assert forall|j: int| b <= j < g implies !occurs_at(new, close, j) by {
        if occurs_at(new, close, j) {
            assert(new.subrange(j, j + 1) =~= html.subrange(j, j + 1));
            assert(occurs_at(html, close, j));
        }
    }
    lemma_find_spec(new, close, b, Some(g));
    let p = l + replacement.len();
    assert(occurs_at(new, end_tag, p)) by {
        assert(new.subrange(p, p + 7) =~= html.subrange(e, e + 7));
    }
    assert forall|j: int| p < j <= new.len() implies !occurs_at(new, end_tag, j) by {
        if occurs_at(new, end_tag, j) {
            assert(new.subrange(j, j + 7) =~= html.subrange(e + (j - p), e + (j - p) + 7));
            assert(occurs_at(html, end_tag, e + (j - p)));
        }
    }
    lemma_rfind_below(new, end_tag, new.len() as int, Some(p));
    assert(new.subrange(l, p) =~= replacement);
}

/// `m` is where the content marker is taken from: the first double-quoted
/// marker, or, when there is none, the first single-quoted one.
pub open spec fn first_marker(html: Seq<char>, m: int) -> bool {
    let double = "data-id=\""@ + content_data_id() + "\""@;
    let single = "data-id='"@ + content_data_id() + "'"@;
    ||| occurs_at(html, double, m) && forall|j: int| 0 <= j < m ==> !occurs_at(html, double, j)
    ||| (forall|j: int| 0 <= j ==> !occurs_at(html, double, j)) && occurs_at(html, single, m)
        && forall|j: int| 0 <= j < m ==> !occurs_at(html, single, j)
}

/// `html[s..=e]` is the start tag that holds the marker at `m`: `s` is the
/// last `<` before the marker and `e` the first `>` from the marker on.
pub open spec fn marked_tag(html: Seq<char>, m: int, s: int, e: int) -> bool {
    &&& first_marker(html, m)
    &&& 0 <= s < m
    &&& html[s] == '<'
    &&& forall|j: int| s < j < m ==> html[j] != '<'
    &&& m <= e < html.len()
    &&& html[e] == '>'
    &&& forall|j: int| m <= j < e ==> html[j] != '>'
}

/// A one-character needle occurs exactly where that character stands.
proof fn lemma_occurs_single(h: Seq<char>, c: char, j: int)
    ensures
        occurs_at(h, seq![c], j) <==> (0 <= j < h.len() && h[j] == c),
{
    let one = seq![c];
    assert(one.len() == 1 && one[0] == c);
    if 0 <= j < h.len() {
        assert(h.subrange(j, j + 1) =~= seq![h[j]]);
        if occurs_at(h, one, j) {
            assert(h.subrange(j, j + 1)[0] == h[j]);
        }
    }
}

/// The id of the content block is read from the one start tag that carries
/// the marker, from the last `<` before the marker to the first `>` after
/// it: whenever such a tag exists the result is its `id` attribute, and a
/// result is only ever found in such a tag. The `id` of an earlier or a
/// later tag is never returned.
pub proof fn lemma_content_id_comes_from_the_marked_tag(html: Seq<char>)
    ensures
        forall|m: int, s: int, e: int|
            #[trigger] marked_tag(html, m, s, e) ==> generated_content_id(html) == attribute_value_spec(
                html.subrange(s, e + 1),
                "id"@,
            ),
        generated_content_id(html) is Some ==> exists|m: int, s: int, e: int|
            #[trigger] marked_tag(html, m, s, e),
{
    reveal_strlit(">");
    let double = "data-id=\""@ + content_data_id() + "\""@;
    let single = "data-id='"@ + content_data_id() + "'"@;
    assert(">"@ =~= seq!['>']);
    assert forall|m: int, s: int, e: int| #[trigger] marked_tag(html, m, s, e) implies generated_content_id(
        html,
    ) == attribute_value_spec(html.subrange(s, e + 1), "id"@) by {
        if occurs_at(html, double, m) && forall|j: int| 0 <= j < m ==> !occurs_at(html, double, j) {
            lemma_find_spec(html, double, 0, Some(m));
        } else {
            lemma_find_spec(html, double, 0, None);
            lemma_find_spec(html, single, 0, Some(m));
        }
        let before = html.take(m);
        assert forall|j: int| s < j <= m implies !occurs_at(before, seq!['<'], j) by {
            lemma_occurs_single(before, '<', j);
        }
        lemma_occurs_single(before, '<', s);
        lemma_rfind_below(before, seq!['<'], m, Some(s));
        assert forall|j: int| m <= j < e implies !occurs_at(html, ">"@, j) by {
            lemma_occurs_single(html, '>', j);
        }
        lemma_occurs_single(html, '>', e);
        lemma_find_spec(html, ">"@, m, Some(e));
    }
    if generated_content_id(html) is Some {
        lemma_find_spec_props(html, double, 0);
        lemma_find_spec_props(html, single, 0);
        let m = match find_spec(html, double, 0) {
            Some(i) => i,
            None => find_spec(html, single, 0)->Some_0,
        };
        let before = html.take(m);
        lemma_rfind_below_props(before, seq!['<'], m);
        let s = rfind_spec(before, seq!['<'])->Some_0;
        lemma_find_spec_props(html, ">"@, m);
        let e = find_spec(html, ">"@, m)->Some_0;
        lemma_occurs_single(before, '<', s);
        lemma_occurs_single(html, '>', e);
        assert forall|j: int| s < j < m implies html[j] != '<' by {
            lemma_occurs_single(before, '<', j);
        }
        assert forall|j: int| m <= j < e implies html[j] != '>' by {
            lemma_occurs_single(html, '>', j);
        }
        assert(marked_tag(html, m, s, e));
    }
}

} // verus!
