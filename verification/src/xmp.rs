//! XMP heuristics: classifying the values of an XMP XML packet as person
//! names or keywords.
//!
//! The XML document is flattened into a document-order list of nodes, each
//! carrying its local (namespace-prefix-stripped) tag name, its text, its
//! attributes, and the size of its subtree. The vendor heuristics —
//! Dublin Core `subject`, MWG region lists, Lightroom/Bridge
//! `hierarchicalSubject` and digiKam `TagsList` — are verified functions
//! over that list.

use crate::text::{
    chars_contains, chars_eq, chars_of, contains_seq, lower_of, lowercase, split_chars, split_on,
    string_of_chars, trim_chars, trimmed,
};
use vstd::prelude::*;

verus! {

/// The mathematical view of one XML node: local tag name, text content,
/// attribute name/value pairs, and the number of nodes in its subtree
/// (itself included).
pub ghost struct XmlNodeView {
    pub name: Seq<char>,
    pub text: Seq<char>,
    pub attrs: Seq<(Seq<char>, Seq<char>)>,
    pub subtree: int,
}

/// One XML node of the flattened document: local tag name, text content,
/// attribute pairs, and the size of its subtree (itself included). The
/// descendants of the node at index `i` are the nodes at `i..i+subtree`.
pub struct XmlNode {
    pub name: String,
    pub text: String,
    pub attrs: Vec<(String, String)>,
    pub subtree: usize,
}

impl DeepView for XmlNode {
    type V = XmlNodeView;

    open spec fn deep_view(&self) -> XmlNodeView {
        XmlNodeView {
            name: self.name@,
            text: self.text@,
            attrs: self.attrs.deep_view(),
            subtree: self.subtree as int,
        }
    }
}

/// The flattened document-order node list that parsing an XML text yields,
/// a function of the text alone; `None` exactly when parsing fails.
pub uninterp spec fn xml_nodes_of(t: Seq<char>) -> Option<Seq<XmlNodeView>>;

/// Relies on `roxmltree::Document::parse` and the accessors
/// `Node::tag_name`, `Node::text`, `Node::attributes` and
/// `Node::descendants`: flattens the parsed document into its
/// document-order node list; parsing depends on the text alone.
#[verifier::external_body]
pub(crate) fn parse_xml_nodes(xml: &str) -> (r: Option<Vec<XmlNode>>)
    ensures
        match r {
            Some(v) => xml_nodes_of(xml@) == Some(v.deep_view()),
            None => xml_nodes_of(xml@) is None,
        },
{
    let doc = match roxmltree::Document::parse(xml) {
        Ok(d) => d,
        Err(_) => return None,
    };
    Some(doc.descendants().map(|n| XmlNode {
        name: n.tag_name().name().to_string(),
        text: n.text().unwrap_or("").to_string(),
        attrs: n.attributes().map(|a| (a.name().to_string(), a.value().to_string())).collect(),
        subtree: n.descendants().count(),
    }).collect())
}

/// End (exclusive) of the subtree of the node at `i`, clamped to the list.
pub open spec fn subtree_end(nodes: Seq<XmlNodeView>, i: int) -> int {
    if 0 <= i < nodes.len() {
        let e = i + nodes[i].subtree;
        if e > nodes.len() {
            nodes.len() as int
        } else {
            e
        }
    } else {
        i
    }
}

// ---------------------------------------------------------------------------
// Dublin Core subject: each li descendant's trimmed text is a keyword.
// ---------------------------------------------------------------------------
/// Keywords contributed by the `li` nodes among `nodes[j..hi]`.
pub open spec fn li_keywords(nodes: Seq<XmlNodeView>, j: int, hi: int) -> Seq<Seq<char>>
    decreases hi - j,
{
    if j < 0 || j >= hi || j >= nodes.len() {
        Seq::empty()
    } else {
        let rest = li_keywords(nodes, j + 1, hi);
        if nodes[j].name == "li"@ && trimmed(nodes[j].text).len() > 0 {
            seq![trimmed(nodes[j].text)] + rest
        } else {
            rest
        }
    }
}

// ---------------------------------------------------------------------------
// MWG regions: Name and PersonDisplayName texts, and name-like attributes.
// ---------------------------------------------------------------------------
/// Person names contributed by the attributes `attrs[k..]`: an attribute
/// whose lower-cased name contains "name" or "person", with a non-empty
/// trimmed value that is neither "true" nor "false".
pub open spec fn attr_persons(attrs: Seq<(Seq<char>, Seq<char>)>, k: int) -> Seq<Seq<char>>
    decreases attrs.len() - k,
{
    if k < 0 || k >= attrs.len() {
        Seq::empty()
    } else {
        let rest = attr_persons(attrs, k + 1);
        let lname = lower_of(attrs[k].0);
        let v = trimmed(attrs[k].1);
        if (contains_seq(lname, "name"@) || contains_seq(lname, "person"@)) && v.len() > 0 && v
            != "true"@ && v != "false"@ {
            seq![v] + rest
        } else {
            rest
        }
    }
}

/// Person names contributed by one node inside a region list.
pub open spec fn node_region_persons(n: XmlNodeView) -> Seq<Seq<char>> {
    let name_item: Seq<Seq<char>> = if n.name == "Name"@ && trimmed(n.text).len() > 0 {
        seq![trimmed(n.text)]
    } else {
        Seq::empty()
    };
    let pdn_item: Seq<Seq<char>> = if n.name == "PersonDisplayName"@ && trimmed(n.text).len()
        > 0 {
        seq![trimmed(n.text)]
    } else {
        Seq::empty()
    };
    name_item + pdn_item + attr_persons(n.attrs, 0)
}

/// Person names contributed by the region nodes `nodes[j..hi]`.
pub open spec fn region_persons(nodes: Seq<XmlNodeView>, j: int, hi: int) -> Seq<Seq<char>>
    decreases hi - j,
{
    if j < 0 || j >= hi || j >= nodes.len() {
        Seq::empty()
    } else {
        node_region_persons(nodes[j]) + region_persons(nodes, j + 1, hi)
    }
}

// ---------------------------------------------------------------------------
// Lightroom/Bridge hierarchicalSubject and digiKam TagsList.
// ---------------------------------------------------------------------------
/// Whether a lower-cased hierarchy category names people: it contains
/// "people", "person", or the CJK words for person.
pub open spec fn is_people_category(cat: Seq<char>, with_short_cjk: bool) -> bool {
    ||| contains_seq(cat, "people"@)
    ||| contains_seq(cat, "person"@)
    ||| contains_seq(cat, "\u{4eba}\u{7269}"@)
    ||| (with_short_cjk && contains_seq(cat, "\u{4eba}"@))
}

/// The person name of one hierarchical tag text split on `sep`: when the
/// trimmed text splits into at least two parts and the lower-cased first
/// part is a people category, the trimmed last part.
pub open spec fn hierarchy_person_of(raw: Seq<char>, sep: char, with_short_cjk: bool) -> Seq<
    Seq<char>,
> {
    let t = trimmed(raw);
    let parts = split_on(t, sep);
    if parts.len() >= 2 && is_people_category(lower_of(parts[0]), with_short_cjk) {
        seq![trimmed(parts[parts.len() - 1])]
    } else {
        Seq::empty()
    }
}

/// Person names contributed by the `li` nodes among `nodes[j..hi]`, read
/// as hierarchical tags split on `sep`.
pub open spec fn hierarchy_persons(
    nodes: Seq<XmlNodeView>,
    j: int,
    hi: int,
    sep: char,
    with_short_cjk: bool,
) -> Seq<Seq<char>>
    decreases hi - j,
{
    if j < 0 || j >= hi || j >= nodes.len() {
        Seq::empty()
    } else {
        let rest = hierarchy_persons(nodes, j + 1, hi, sep, with_short_cjk);
        if nodes[j].name == "li"@ {
            hierarchy_person_of(nodes[j].text, sep, with_short_cjk) + rest
        } else {
            rest
        }
    }
}

// ---------------------------------------------------------------------------
// The document walk.
// ---------------------------------------------------------------------------
/// Keywords contributed by the node at `i`: the `subject` rule.
pub open spec fn node_keywords(nodes: Seq<XmlNodeView>, i: int) -> Seq<Seq<char>> {
    if nodes[i].name == "subject"@ {
        li_keywords(nodes, i, subtree_end(nodes, i))
    } else {
        Seq::empty()
    }
}

/// Person names contributed by the node at `i`: the region,
/// `hierarchicalSubject` and `TagsList` rules.
pub open spec fn node_persons(nodes: Seq<XmlNodeView>, i: int) -> Seq<Seq<char>> {
    let e = subtree_end(nodes, i);
    let reg: Seq<Seq<char>> = if nodes[i].name == "RegionList"@ || nodes[i].name == "Regions"@
        || nodes[i].name == "RegionInfo"@ {
        region_persons(nodes, i, e)
    } else {
        Seq::empty()
    };
    let hier: Seq<Seq<char>> = if nodes[i].name == "hierarchicalSubject"@ {
        hierarchy_persons(nodes, i, e, '|', true)
    } else {
        Seq::empty()
    };
    let tags: Seq<Seq<char>> = if nodes[i].name == "TagsList"@ {
        hierarchy_persons(nodes, i, e, '/', false)
    } else {
        Seq::empty()
    };
    reg + hier + tags
}

/// All keywords of the document-order walk from node `i` on.
pub open spec fn walk_keywords(nodes: Seq<XmlNodeView>, i: int) -> Seq<Seq<char>>
    decreases nodes.len() - i,
{
    if i < 0 || i >= nodes.len() {
        Seq::empty()
    } else {
        node_keywords(nodes, i) + walk_keywords(nodes, i + 1)
    }
}

/// All person names of the document-order walk from node `i` on.
pub open spec fn walk_persons(nodes: Seq<XmlNodeView>, i: int) -> Seq<Seq<char>>
    decreases nodes.len() - i,
{
    if i < 0 || i >= nodes.len() {
        Seq::empty()
    } else {
        node_persons(nodes, i) + walk_persons(nodes, i + 1)
    }
}

/// The person names an XMP XML text yields (empty when parsing fails).
pub open spec fn xmp_persons_of_text(t: Seq<char>) -> Seq<Seq<char>> {
    match xml_nodes_of(t) {
        Option::Some(nodes) => walk_persons(nodes, 0),
        Option::None => Seq::empty(),
    }
}

/// The keywords an XMP XML text yields (empty when parsing fails).
pub open spec fn xmp_keywords_of_text(t: Seq<char>) -> Seq<Seq<char>> {
    match xml_nodes_of(t) {
        Option::Some(nodes) => walk_keywords(nodes, 0),
        Option::None => Seq::empty(),
    }
}

// ---------------------------------------------------------------------------
// Executable walk.
// ---------------------------------------------------------------------------
/// Appends the trimmed non-empty texts of the `li` nodes in
/// `nodes[lo..hi]` to `out`.
fn append_li_keywords(nodes: &Vec<XmlNode>, lo: usize, hi: usize, out: &mut Vec<String>)
    requires
        lo <= hi <= nodes@.len(),
    ensures
        final (out).deep_view() == old(out).deep_view() + li_keywords(
            nodes.deep_view(),
            lo as int,
            hi as int,
        ),
{
    let li_lit = chars_of("li");
    let mut j: usize = lo;
    proof {
        assert(out.deep_view() + li_keywords(nodes.deep_view(), lo as int, hi as int) =~~= old(
            out,
        ).deep_view() + li_keywords(nodes.deep_view(), lo as int, hi as int));
    }
    while j < hi
        invariant
            lo <= j <= hi <= nodes@.len(),
            li_lit@ == "li"@,
            old(out).deep_view() + li_keywords(nodes.deep_view(), lo as int, hi as int)
                == out.deep_view() + li_keywords(nodes.deep_view(), j as int, hi as int),
        decreases hi - j,
    {
        let ghost dv = nodes.deep_view();
        let node = &nodes[j];
        let name_chars = chars_of(node.name.as_str());
        if chars_eq(&name_chars, &li_lit) {
            let text_chars = chars_of(node.text.as_str());
            let t = trim_chars(&text_chars);
            if t.len() > 0 {
                let ghost oldout = out.deep_view();
                out.push(string_of_chars(&t));
                proof {
                    assert(out.deep_view() =~~= oldout.push(trimmed(dv[j as int].text)));
                    assert(oldout.push(trimmed(dv[j as int].text)) + li_keywords(
                        dv,
                        j + 1,
                        hi as int,
                    ) =~~= oldout + li_keywords(dv, j as int, hi as int));
                }
            }
        }
        j = j + 1;
    }
}

/// Appends the person names of the attributes of one node to `out`.
fn append_attr_persons(attrs: &Vec<(String, String)>, out: &mut Vec<String>)
    ensures
        final (out).deep_view() == old(out).deep_view() + attr_persons(attrs.deep_view(), 0),
{
    let name_lit = chars_of("name");
    let person_lit = chars_of("person");
    let true_lit = chars_of("true");
    let false_lit = chars_of("false");
    let n = attrs.len();
    let mut k: usize = 0;
    proof {
        assert(out.deep_view() + attr_persons(attrs.deep_view(), 0) =~~= old(out).deep_view()
            + attr_persons(attrs.deep_view(), 0));
    }
    while k < n
        invariant
            0 <= k <= n,
            n == attrs@.len(),
            name_lit@ == "name"@,
            person_lit@ == "person"@,
            true_lit@ == "true"@,
            false_lit@ == "false"@,
            old(out).deep_view() + attr_persons(attrs.deep_view(), 0) == out.deep_view()
                + attr_persons(attrs.deep_view(), k as int),
        decreases n - k,
    {
        let ghost adv = attrs.deep_view();
        let a = &attrs[k];
        let lname = lowercase(a.0.as_str());
        let lname_chars = chars_of(lname.as_str());
        assert(lname_chars@ == lower_of(adv[k as int].0));
        let matches_key = chars_contains(&lname_chars, &name_lit) || chars_contains(
            &lname_chars,
            &person_lit,
        );
        if matches_key {
            let val_chars = chars_of(a.1.as_str());
            let v = trim_chars(&val_chars);
            if v.len() > 0 && !chars_eq(&v, &true_lit) && !chars_eq(&v, &false_lit) {
                let ghost oldout = out.deep_view();
                out.push(string_of_chars(&v));
                proof {
                    assert(out.deep_view() =~~= oldout.push(trimmed(adv[k as int].1)));
                    assert(oldout.push(trimmed(adv[k as int].1)) + attr_persons(adv, k + 1) =~~=
                    oldout + attr_persons(adv, k as int));
                }
            }
        }
        k = k + 1;
    }
}

/// Appends the person names of the region nodes `nodes[lo..hi]` to `out`.
fn append_region_persons(nodes: &Vec<XmlNode>, lo: usize, hi: usize, out: &mut Vec<String>)
    requires
        lo <= hi <= nodes@.len(),
    ensures
        final (out).deep_view() == old(out).deep_view() + region_persons(
            nodes.deep_view(),
            lo as int,
            hi as int,
        ),
{
    let name_lit = chars_of("Name");
    let pdn_lit = chars_of("PersonDisplayName");
    let mut j: usize = lo;
    proof {
        assert(out.deep_view() + region_persons(nodes.deep_view(), lo as int, hi as int) =~~= old(
            out,
        ).deep_view() + region_persons(nodes.deep_view(), lo as int, hi as int));
    }
    while j < hi
        invariant
            lo <= j <= hi <= nodes@.len(),
            name_lit@ == "Name"@,
            pdn_lit@ == "PersonDisplayName"@,
            old(out).deep_view() + region_persons(nodes.deep_view(), lo as int, hi as int)
                == out.deep_view() + region_persons(nodes.deep_view(), j as int, hi as int),
        decreases hi - j,
    {
        let ghost dv = nodes.deep_view();
        let ghost out0 = out.deep_view();
        let node = &nodes[j];
        let name_chars = chars_of(node.name.as_str());
        let ghost nv = dv[j as int];
        let ghost name_item: Seq<Seq<char>> = if nv.name == "Name"@ && trimmed(nv.text).len()
            > 0 {
            seq![trimmed(nv.text)]
        } else {
            Seq::empty()
        };
        let ghost pdn_item: Seq<Seq<char>> = if nv.name == "PersonDisplayName"@ && trimmed(
            nv.text,
        ).len() > 0 {
            seq![trimmed(nv.text)]
        } else {
            Seq::empty()
        };
        if chars_eq(&name_chars, &name_lit) {
            let text_chars = chars_of(node.text.as_str());
            let t = trim_chars(&text_chars);
            if t.len() > 0 {
                let ghost oldout = out.deep_view();
                out.push(string_of_chars(&t));
                proof {
                    assert(out.deep_view() =~~= oldout.push(trimmed(nv.text)));
                }
            }
        }
        proof {
            assert(out.deep_view() =~~= out0 + name_item);
        }
        if chars_eq(&name_chars, &pdn_lit) {
            let text_chars = chars_of(node.text.as_str());
            let t = trim_chars(&text_chars);
            if t.len() > 0 {
                let ghost oldout = out.deep_view();
                out.push(string_of_chars(&t));
                proof {
                    assert(out.deep_view() =~~= oldout.push(trimmed(nv.text)));
                }
            }
        }
        proof {
            assert(out.deep_view() =~~= out0 + name_item + pdn_item);
        }
        append_attr_persons(&node.attrs, out);
        proof {
            assert(node.attrs.deep_view() == nv.attrs);
            assert(out.deep_view() =~~= out0 + name_item + pdn_item + attr_persons(nv.attrs, 0));
            assert(out0 + name_item + pdn_item + attr_persons(nv.attrs, 0) =~~= out0 + (name_item
                + pdn_item + attr_persons(nv.attrs, 0)));
            assert(node_region_persons(nv) == name_item + pdn_item + attr_persons(nv.attrs, 0));
            assert(region_persons(dv, j as int, hi as int) == node_region_persons(nv)
                + region_persons(dv, j + 1, hi as int));
            assert(out0 + (node_region_persons(nv) + region_persons(dv, j + 1, hi as int)) =~~= (
            out0 + node_region_persons(nv)) + region_persons(dv, j + 1, hi as int));
        }
        j = j + 1;
    }
}

/// Appends the person name of one hierarchical tag text to `out`, when its
/// category names people.
fn append_hierarchy_item(text: &str, sep: char, with_short_cjk: bool, out: &mut Vec<String>)
    ensures
        final (out).deep_view() == old(out).deep_view() + hierarchy_person_of(
            text@,
            sep,
            with_short_cjk,
        ),
{
    let text_chars = chars_of(text);
    let t = trim_chars(&text_chars);
    let parts = split_chars(&t, sep);
    let ghost spec_parts = split_on(trimmed(text@), sep);
    if parts.len() >= 2 {
        let cat = string_of_chars(&parts[0]);
        let lc = lowercase(cat.as_str());
        let lc_chars = chars_of(lc.as_str());
        proof {
            assert(parts.deep_view()[0] == parts@[0]@);
            assert(lc_chars@ == lower_of(spec_parts[0]));
        }
        let people = chars_contains(&lc_chars, &chars_of("people")) || chars_contains(
            &lc_chars,
            &chars_of("person"),
        ) || chars_contains(&lc_chars, &chars_of("\u{4eba}\u{7269}")) || (with_short_cjk
            && chars_contains(&lc_chars, &chars_of("\u{4eba}")));
        assert(people == is_people_category(lower_of(spec_parts[0]), with_short_cjk));
        if people {
            let last_idx = parts.len() - 1;
            let last = trim_chars(&parts[last_idx]);
            proof {
                assert(parts.deep_view()[last_idx as int] == parts@[last_idx as int]@);
                assert(last@ == trimmed(spec_parts[spec_parts.len() - 1]));
            }
            let ghost oldout = out.deep_view();
            out.push(string_of_chars(&last));
            proof {
                assert(out.deep_view() =~~= oldout.push(trimmed(spec_parts[spec_parts.len() - 1])));
                assert(oldout.push(trimmed(spec_parts[spec_parts.len() - 1])) =~~= oldout
                    + hierarchy_person_of(text@, sep, with_short_cjk));
            }
        } else {
            assert(out.deep_view() + hierarchy_person_of(text@, sep, with_short_cjk) =~~=
            out.deep_view());
        }
    } else {
        assert(out.deep_view() + hierarchy_person_of(text@, sep, with_short_cjk) =~~=
        out.deep_view());
    }
}

/// Appends the person names of the hierarchical-tag `li` nodes among
/// `nodes[lo..hi]` to `out`.
fn append_hierarchy_persons(
    nodes: &Vec<XmlNode>,
    lo: usize,
    hi: usize,
    sep: char,
    with_short_cjk: bool,
    out: &mut Vec<String>,
)
    requires
        lo <= hi <= nodes@.len(),
    ensures
        final (out).deep_view() == old(out).deep_view() + hierarchy_persons(
            nodes.deep_view(),
            lo as int,
            hi as int,
            sep,
            with_short_cjk,
        ),
{
    let li_lit = chars_of("li");
    let mut j: usize = lo;
    proof {
        assert(out.deep_view() + hierarchy_persons(
            nodes.deep_view(),
            lo as int,
            hi as int,
            sep,
            with_short_cjk,
        ) =~~= old(out).deep_view() + hierarchy_persons(
            nodes.deep_view(),
            lo as int,
            hi as int,
            sep,
            with_short_cjk,
        ));
    }
    while j < hi
        invariant
            lo <= j <= hi <= nodes@.len(),
            li_lit@ == "li"@,
            old(out).deep_view() + hierarchy_persons(
                nodes.deep_view(),
                lo as int,
                hi as int,
                sep,
                with_short_cjk,
            ) == out.deep_view() + hierarchy_persons(
                nodes.deep_view(),
                j as int,
                hi as int,
                sep,
                with_short_cjk,
            ),
        decreases hi - j,
    {
        let ghost dv = nodes.deep_view();
        let ghost out0 = out.deep_view();
        let node = &nodes[j];
        let name_chars = chars_of(node.name.as_str());
        if chars_eq(&name_chars, &li_lit) {
            append_hierarchy_item(node.text.as_str(), sep, with_short_cjk, out);
            proof {
                assert(out.deep_view() =~~= out0 + hierarchy_person_of(
                    dv[j as int].text,
                    sep,
                    with_short_cjk,
                ));
                assert(out0 + (hierarchy_person_of(dv[j as int].text, sep, with_short_cjk)
                    + hierarchy_persons(dv, j + 1, hi as int, sep, with_short_cjk)) =~~= (out0
                    + hierarchy_person_of(dv[j as int].text, sep, with_short_cjk))
                    + hierarchy_persons(dv, j + 1, hi as int, sep, with_short_cjk));
            }
        }
        j = j + 1;
    }
}

/// Parses an XMP XML text and appends the person names and keywords its
/// vendor heuristics yield; a text that does not parse yields nothing.
#[verifier::rlimit(60)]
pub fn parse_xmp_xml(xml: &str, persons: &mut Vec<String>, keywords: &mut Vec<String>)
    ensures
        final (persons).deep_view() == old(persons).deep_view() + xmp_persons_of_text(xml@),
        final (keywords).deep_view() == old(keywords).deep_view() + xmp_keywords_of_text(xml@),
{
    let nodes = match parse_xml_nodes(xml) {
        Some(v) => v,
        None => {
            proof {
                assert(persons.deep_view() + xmp_persons_of_text(xml@) =~~= persons.deep_view());
                assert(keywords.deep_view() + xmp_keywords_of_text(xml@) =~~= keywords.deep_view());
            }
            return ;
        },
    };
    let subject_lit = chars_of("subject");
    let region_list_lit = chars_of("RegionList");
    let regions_lit = chars_of("Regions");
    let region_info_lit = chars_of("RegionInfo");
    let hier_lit = chars_of("hierarchicalSubject");
    let tags_lit = chars_of("TagsList");
    let n = nodes.len();
    let mut i: usize = 0;
    proof {
        assert(persons.deep_view() + walk_persons(nodes.deep_view(), 0) =~~= old(
            persons,
        ).deep_view() + walk_persons(nodes.deep_view(), 0));
        assert(keywords.deep_view() + walk_keywords(nodes.deep_view(), 0) =~~= old(
            keywords,
        ).deep_view() + walk_keywords(nodes.deep_view(), 0));
    }
    while i < n
        invariant
            0 <= i <= n,
            n == nodes@.len(),
            subject_lit@ == "subject"@,
            region_list_lit@ == "RegionList"@,
            regions_lit@ == "Regions"@,
            region_info_lit@ == "RegionInfo"@,
            hier_lit@ == "hierarchicalSubject"@,
            tags_lit@ == "TagsList"@,
            old(persons).deep_view() + walk_persons(nodes.deep_view(), 0) == persons.deep_view()
                + walk_persons(nodes.deep_view(), i as int),
            old(keywords).deep_view() + walk_keywords(nodes.deep_view(), 0)
                == keywords.deep_view() + walk_keywords(nodes.deep_view(), i as int),
        decreases n - i,
    {
        let ghost dv = nodes.deep_view();
        let ghost p0 = persons.deep_view();
        let ghost k0 = keywords.deep_view();
        let subtree = nodes[i].subtree;
        let e: usize = if n - i < subtree {
            n
        } else {
            i + subtree
        };
        assert(e == subtree_end(dv, i as int));
        let name_chars = chars_of(nodes[i].name.as_str());
        if chars_eq(&name_chars, &subject_lit) {
            append_li_keywords(&nodes, i, e, keywords);
        }
        proof {
            assert(keywords.deep_view() =~~= k0 + node_keywords(dv, i as int));
            assert(k0 + (node_keywords(dv, i as int) + walk_keywords(dv, i + 1)) =~~= (k0
                + node_keywords(dv, i as int)) + walk_keywords(dv, i + 1));
        }
        let ghost ee = subtree_end(dv, i as int);
        let ghost reg: Seq<Seq<char>> = if dv[i as int].name == "RegionList"@ || dv[i as int].name
            == "Regions"@ || dv[i as int].name == "RegionInfo"@ {
            region_persons(dv, i as int, ee)
        } else {
            Seq::empty()
        };
        let ghost hier: Seq<Seq<char>> = if dv[i as int].name == "hierarchicalSubject"@ {
            hierarchy_persons(dv, i as int, ee, '|', true)
        } else {
            Seq::empty()
        };
        let ghost tags: Seq<Seq<char>> = if dv[i as int].name == "TagsList"@ {
            hierarchy_persons(dv, i as int, ee, '/', false)
        } else {
            Seq::empty()
        };
        if chars_eq(&name_chars, &region_list_lit) || chars_eq(&name_chars, &regions_lit)
            || chars_eq(&name_chars, &region_info_lit) {
            append_region_persons(&nodes, i, e, persons);
        }
        proof {
            assert(persons.deep_view() =~~= p0 + reg);
        }
        let ghost p1 = persons.deep_view();
        if chars_eq(&name_chars, &hier_lit) {
            append_hierarchy_persons(&nodes, i, e, '|', true, persons);
        }
        proof {
            assert(persons.deep_view() =~~= p1 + hier);
        }
        let ghost p2 = persons.deep_view();
        if chars_eq(&name_chars, &tags_lit) {
            append_hierarchy_persons(&nodes, i, e, '/', false, persons);
        }
        proof {
            assert(persons.deep_view() =~~= p2 + tags);
            assert(persons.deep_view() =~~= p0 + node_persons(dv, i as int));
            assert(p0 + (node_persons(dv, i as int) + walk_persons(dv, i + 1)) =~~= (p0
                + node_persons(dv, i as int)) + walk_persons(dv, i + 1));
        }
        i = i + 1;
    }
}

} // verus!
