//! Rendering a listing as the JSON-like text that `list` prints.
use vstd::prelude::*;
use crate::listing::{Listing, ListingNode};

verus! {

broadcast use vstd::std_specs::vec::group_vec_axioms;

/// `d` tab characters.
pub open spec fn indent_text(d: nat) -> Seq<char> {
    Seq::new(d, |i: int| '\t')
}

pub open spec fn digit_chars() -> Seq<char> {
    seq!['0', '1', '2', '3', '4', '5', '6', '7', '8', '9']
}

/// The decimal digits of `n`, without leading zeros.
pub open spec fn decimal(n: nat) -> Seq<char>
    decreases n,
{
    if n < 10 {
        seq![digit_chars()[n as int]]
    } else {
        decimal(n / 10).push(digit_chars()[(n % 10) as int])
    }
}

/// The size and times of a file-like node.
pub open spec fn metadata_text(size: u64, ctime: u64, mtime: u64) -> Seq<char> {
    "\"size\": "@ + decimal(size as nat) + ", \"ctime\": "@ + decimal(ctime as nat)
        + ", \"mtime\": "@ + decimal(mtime as nat) + " "@
}

/// The number of entries a listing renders.
pub open spec fn entry_count(l: Listing) -> nat {
    match l {
        Listing::Entries(ns) => ns@.len(),
        Listing::Failed(_) => 0,
    }
}

/// The text of a listing's `entries` field at nesting `depth`.
pub open spec fn listing_text(l: Listing, depth: nat) -> Seq<char>
    decreases l, entry_count(l) + 1,
{
    match l {
        Listing::Failed(t) => "\"entries\": [ ], \"error\": true, \"errortext\": \""@ + t@
            + "\""@,
        Listing::Entries(ns) => if ns@.len() == 0 {
            "\"entries\": [ ]"@
        } else {
            "\"entries\":\n"@ + indent_text(depth) + "[\n"@ + nodes_text(l, depth, 0)
                + indent_text(depth) + "]"@
        },
    }
}

/// The lines of the entries of `l` from position `k` on, each followed by
/// a comma but the last.
pub open spec fn nodes_text(l: Listing, depth: nat, k: nat) -> Seq<char>
    decreases l, entry_count(l) - k,
{
    match l {
        Listing::Entries(ns) => if k >= ns@.len() {
            Seq::empty()
        } else {
            node_text(ns@[k as int], depth) + (if k + 1 < ns@.len() {
                ",\n"@
            } else {
                "\n"@
            }) + nodes_text(l, depth, k + 1)
        },
        Listing::Failed(_) => Seq::empty(),
    }
}

/// The text of one node, as an entry at nesting `depth`.
pub open spec fn node_text(n: ListingNode, depth: nat) -> Seq<char>
    decreases n, 0nat,
{
    indent_text(depth + 1) + "{"@ + match n {
        ListingNode::Dir { name, children } => "\"name\": \""@ + name@
            + "\", \"type\": \"dir\", "@ + listing_text(children, depth + 1),
        ListingNode::CompressedDir { name, children } => "\"name\": \""@ + name@
            + "\", \"type\": \"compressed_dir\", "@ + listing_text(children, depth + 1),
        ListingNode::File { name, size, ctime, mtime } => "\"name\": \""@ + name@
            + "\", \"type\": \"file\", "@ + metadata_text(size, ctime, mtime),
        ListingNode::CompressedFile { name, size, ctime, mtime } => "\"name\": \""@ + name@
            + "\", \"type\": \"compressed_file\", "@ + metadata_text(size, ctime, mtime),
        ListingNode::Symlink { name } => "\"name\": \""@ + name@ + "\", \"type\": \"symlink\" "@,
    } + "}"@
}

/// The whole document for a listing of the base directory.
pub open spec fn document_text(l: Listing) -> Seq<char> {
    "{\n"@ + indent_text(1) + listing_text(l, 1) + "\n}\n"@
}

/// Appends the characters of `s` to `out`.
fn push_str(out: &mut Vec<char>, s: &str)
    ensures
        final(out)@ == old(out)@ + s@,
{
    let n = s.unicode_len();
    let mut i: usize = 0;
    while i < n
        invariant
            n == s@.len(),
            i <= n,
            out@ == old(out)@ + s@.subrange(0, i as int),
        decreases n - i,
    {
        out.push(s.get_char(i));
        i = i + 1;
        assert(out@ =~= old(out)@ + s@.subrange(0, i as int));
    }
    assert(s@.subrange(0, n as int) =~= s@);
}

/// Appends the characters of `s` to `out`.
fn push_chars(out: &mut Vec<char>, s: &Vec<char>)
    ensures
        final(out)@ == old(out)@ + s@,
{
    let mut i: usize = 0;
    while i < s.len()
        invariant
            i <= s@.len(),
            out@ == old(out)@ + s@.subrange(0, i as int),
        decreases s.len() - i,
    {
        out.push(s[i]);
        i = i + 1;
        assert(out@ =~= old(out)@ + s@.subrange(0, i as int));
    }
    assert(s@.subrange(0, i as int) =~= s@);
}

/// Appends the decimal digits of `n` to `out`.
fn push_decimal(out: &mut Vec<char>, n: u64)
    ensures
        final(out)@ == old(out)@ + decimal(n as nat),
    decreases n,
{
    let digits: Vec<char> = vec!['0', '1', '2', '3', '4', '5', '6', '7', '8', '9'];
    assert(digits@ =~= digit_chars());
    if n >= 10 {
        push_decimal(out, n / 10);
    }
    out.push(digits[(n % 10) as usize]);
    assert(out@ =~= old(out)@ + decimal(n as nat));
}

fn push_metadata(out: &mut Vec<char>, size: u64, ctime: u64, mtime: u64)
    ensures
        final(out)@ == old(out)@ + metadata_text(size, ctime, mtime),
{
    push_str(out, "\"size\": ");
    push_decimal(out, size);
    push_str(out, ", \"ctime\": ");
    push_decimal(out, ctime);
    push_str(out, ", \"mtime\": ");
    push_decimal(out, mtime);
    push_str(out, " ");
    assert(out@ =~= old(out)@ + metadata_text(size, ctime, mtime));
}

/// Appends the `entries` field of `l`; `tabs` holds the indentation of its
/// nesting depth and is left as it was.
fn write_listing(l: &Listing, tabs: &mut Vec<char>, out: &mut Vec<char>)
    requires
        old(tabs)@ == indent_text(old(tabs)@.len()),
    ensures
        final(tabs)@ == old(tabs)@,
        final(out)@ == old(out)@ + listing_text(*l, old(tabs)@.len()),
    decreases l, entry_count(*l) + 1,
{
    let ghost depth = tabs@.len();
    match l {
        Listing::Failed(t) => {
            push_str(out, "\"entries\": [ ], \"error\": true, \"errortext\": \"");
            push_str(out, t.as_str());
            push_str(out, "\"");
        },
        Listing::Entries(ns) => {
            if ns.len() == 0 {
                push_str(out, "\"entries\": [ ]");
            } else {
                push_str(out, "\"entries\":\n");
                push_chars(out, tabs);
                push_str(out, "[\n");
                let ghost before = out@;
                let mut k: usize = 0;
                while k < ns.len()
                    invariant
                        k <= ns@.len(),
                        tabs@ == indent_text(depth),
                        *l == Listing::Entries(*ns),
                        out@ + nodes_text(*l, depth, k as nat) == before + nodes_text(*l, depth, 0),
                    decreases ns.len() - k,
                {
                    let ghost mid = out@;
                    write_node(&ns[k], tabs, out);
                    if k + 1 < ns.len() {
                        push_str(out, ",\n");
                    } else {
                        push_str(out, "\n");
                    }
                    assert(nodes_text(*l, depth, k as nat) =~= node_text(ns@[k as int], depth) + (
                    if k + 1 < ns@.len() {
                        ",\n"@
                    } else {
                        "\n"@
                    }) + nodes_text(*l, depth, k as nat + 1));
                    k = k + 1;
                    assert(out@ + nodes_text(*l, depth, k as nat) =~= mid + nodes_text(
                        *l,
                        depth,
                        (k - 1) as nat,
                    ));
                }
                assert(nodes_text(*l, depth, k as nat) =~= Seq::<char>::empty());
                assert(out@ =~= before + nodes_text(*l, depth, 0));
                push_chars(out, tabs);
                push_str(out, "]");
            }
        },
    }
    assert(out@ =~= old(out)@ + listing_text(*l, depth));
}

/// Appends the text of node `n`; `tabs` holds the indentation of the
/// enclosing listing and is left as it was.
fn write_node(n: &ListingNode, tabs: &mut Vec<char>, out: &mut Vec<char>)
    requires
        old(tabs)@ == indent_text(old(tabs)@.len()),
    ensures
        final(tabs)@ == old(tabs)@,
        final(out)@ == old(out)@ + node_text(*n, old(tabs)@.len()),
    decreases n, 0nat,
{
    let ghost depth = tabs@.len();
    tabs.push('\t');
    assert(tabs@ =~= indent_text(depth + 1));
    push_chars(out, tabs);
    push_str(out, "{");
    let ghost head = out@;
    match n {
        ListingNode::Dir { name, children } => {
            push_str(out, "\"name\": \"");
            push_str(out, name.as_str());
            push_str(out, "\", \"type\": \"dir\", ");
            write_listing(children, tabs, out);
        },
        ListingNode::CompressedDir { name, children } => {
            push_str(out, "\"name\": \"");
            push_str(out, name.as_str());
            push_str(out, "\", \"type\": \"compressed_dir\", ");
            write_listing(children, tabs, out);
        },
        ListingNode::File { name, size, ctime, mtime } => {
            push_str(out, "\"name\": \"");
            push_str(out, name.as_str());
            push_str(out, "\", \"type\": \"file\", ");
            push_metadata(out, *size, *ctime, *mtime);
        },
        ListingNode::CompressedFile { name, size, ctime, mtime } => {
            push_str(out, "\"name\": \"");
            push_str(out, name.as_str());
            push_str(out, "\", \"type\": \"compressed_file\", ");
            push_metadata(out, *size, *ctime, *mtime);
        },
        ListingNode::Symlink { name } => {
            push_str(out, "\"name\": \"");
            push_str(out, name.as_str());
            push_str(out, "\", \"type\": \"symlink\" ");
        },
    }
    push_str(out, "}");
    tabs.pop();
    assert(tabs@ =~= old(tabs)@);
    assert(out@ =~= old(out)@ + node_text(*n, depth));
}

/// The text that `list` prints for the listing `l` of the base directory.
pub fn render_document(l: &Listing) -> (r: Vec<char>)
    ensures
        r@ == document_text(*l),
{
    let mut out: Vec<char> = Vec::new();
    let mut tabs: Vec<char> = vec!['\t'];
    assert(tabs@ =~= indent_text(1));
    push_str(&mut out, "{\n");
    push_chars(&mut out, &tabs);
    write_listing(l, &mut tabs, &mut out);
    push_str(&mut out, "\n}\n");
    assert(out@ =~= document_text(*l));
    out
}

} // verus!
