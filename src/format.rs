//! The output of a node: its items tagged by kind (for JSON), or one item per
//! line (raw).

use vstd::prelude::*;
use crate::cli::{Content, Display, Format};
use crate::link::Link;
use crate::topology::Node;

verus! {

/// One item of a page, tagged with its kind.
pub struct Data {
    pub kind: Content,
    pub content: String,
}

/// What a node is formatted to: records to serialize, or text.
pub enum Output {
    Json(Vec<Data>),
    Raw(String),
}

pub enum FormatError {
    Serde,
    /// A graph is rendered, not formatted.
    Graph,
}

pub open spec fn data_view(d: Seq<Data>) -> Seq<(Content, Seq<char>)> {
    d.map_values(|x: Data| (x.kind, x.content@))
}

pub open spec fn strings_view(s: Seq<String>) -> Seq<Seq<char>> {
    s.map_values(|x: String| x@)
}

pub open spec fn urls_view(s: Seq<Link>) -> Seq<Seq<char>> {
    s.map_values(|x: Link| x.text@)
}

pub open spec fn tag(s: Seq<Seq<char>>, k: Content) -> Seq<(Content, Seq<char>)> {
    s.map_values(|x: Seq<char>| (k, x))
}

/// The items of one kind that a node holds, in order; none for `All`.
pub open spec fn kind_items(n: Node, k: Content) -> Seq<Seq<char>> {
    match k {
        Content::Texts => strings_view(n.texts@),
        Content::Comments => strings_view(n.comments@),
        Content::Links => urls_view(n.links@),
        Content::Images => urls_view(n.images@),
        Content::Inputs => strings_view(n.inputs@),
        Content::All => Seq::empty(),
    }
}

/// The JSON records for one kind; `All` gives texts, comments, links,
/// images and inputs, in that order.
pub open spec fn json_items(n: Node, k: Content) -> Seq<(Content, Seq<char>)> {
    match k {
        Content::All => tag(kind_items(n, Content::Texts), Content::Texts) + tag(
            kind_items(n, Content::Comments),
            Content::Comments,
        ) + tag(kind_items(n, Content::Links), Content::Links) + tag(kind_items(n, Content::Images), Content::Images)
            + tag(kind_items(n, Content::Inputs), Content::Inputs),
        _ => tag(kind_items(n, k), k),
    }
}

/// The JSON records for each kind asked for, in the order asked.
pub open spec fn aggregate_json_items(n: Node, contents: Seq<Content>) -> Seq<(Content, Seq<char>)>
    decreases contents.len(),
{
    if contents.len() == 0 {
        Seq::empty()
    } else {
        aggregate_json_items(n, contents.drop_last()) + json_items(n, contents.last())
    }
}

/// The raw lines for one kind; `All` gives texts, comments, links, images
/// and inputs, in that order.
pub open spec fn raw_items(n: Node, k: Content) -> Seq<Seq<char>> {
    match k {
        Content::All => kind_items(n, Content::Texts) + kind_items(n, Content::Comments) + kind_items(
            n,
            Content::Links,
        ) + kind_items(n, Content::Images) + kind_items(n, Content::Inputs),
        _ => kind_items(n, k),
    }
}

pub open spec fn aggregate_raw_items(n: Node, contents: Seq<Content>) -> Seq<Seq<char>>
    decreases contents.len(),
{
    if contents.len() == 0 {
        Seq::empty()
    } else {
        aggregate_raw_items(n, contents.drop_last()) + raw_items(n, contents.last())
    }
}

/// Lines joined by a newline between each two.
pub open spec fn join_lines(s: Seq<Seq<char>>) -> Seq<char>
    decreases s.len(),
{
    if s.len() == 0 {
        Seq::empty()
    } else if s.len() == 1 {
        s[0]
    } else {
        join_lines(s.drop_last()) + "\n"@ + s.last()
    }
}

/// Reading JSON records back: the items of one kind, in order.
pub open spec fn items_of_kind(d: Seq<(Content, Seq<char>)>, k: Content) -> Seq<Seq<char>>
    decreases d.len(),
{
    if d.len() == 0 {
        Seq::empty()
    } else {
        let acc = items_of_kind(d.drop_last(), k);
        if d.last().0 == k {
            acc.push(d.last().1)
        } else {
            acc
        }
    }
}

/// How many entries of `contents` ask for kind `k`, by itself or through
/// `All`.
pub open spec fn times_asked(contents: Seq<Content>, k: Content) -> nat
    decreases contents.len(),
{
    if contents.len() == 0 {
        0
    } else {
        times_asked(contents.drop_last(), k) + if contents.last() == k || contents.last() == Content::All {
            1nat
        } else {
            0nat
        }
    }
}

/// `s`, `c` times over.
pub open spec fn repeat(s: Seq<Seq<char>>, c: nat) -> Seq<Seq<char>>
    decreases c,
{
    if c == 0 {
        Seq::empty()
    } else {
        repeat(s, (c - 1) as nat) + s
    }
}

proof fn lemma_items_of_kind_concat(a: Seq<(Content, Seq<char>)>, b: Seq<(Content, Seq<char>)>, k: Content)
    ensures
        items_of_kind(a + b, k) == items_of_kind(a, k) + items_of_kind(b, k),
    decreases b.len(),
{
    if b.len() == 0 {
        assert(a + b =~= a);
        assert(items_of_kind(a, k) + items_of_kind(b, k) =~= items_of_kind(a, k));
    } else {
        assert((a + b).drop_last() =~= a + b.drop_last());
        lemma_items_of_kind_concat(a, b.drop_last(), k);
        assert((a + b).last() == b.last());
        if b.last().0 == k {
            assert(items_of_kind(a, k) + items_of_kind(b, k) =~= (items_of_kind(a, k) + items_of_kind(
                b.drop_last(),
                k,
            )).push(b.last().1));
        }
    }
}

proof fn lemma_items_of_tag(s: Seq<Seq<char>>, j: Content, k: Content)
    ensures
        items_of_kind(tag(s, j), k) == if j == k {
            s
        } else {
            Seq::empty()
        },
    decreases s.len(),
{
    if s.len() > 0 {
        assert(tag(s, j).drop_last() =~= tag(s.drop_last(), j));
        lemma_items_of_tag(s.drop_last(), j, k);
        if j == k {
            assert(s =~= s.drop_last().push(s.last()));
        }
    } else {
        assert(tag(s, j) =~= Seq::empty());
        if j == k {
            assert(s =~= Seq::empty());
        }
    }
}

proof fn lemma_items_of_json(n: Node, j: Content, k: Content)
    requires
        k != Content::All,
    ensures
        items_of_kind(json_items(n, j), k) == if j == k || j == Content::All {
            kind_items(n, k)
        } else {
            Seq::empty()
        },
{
    let t = tag(kind_items(n, Content::Texts), Content::Texts);
    let c = tag(kind_items(n, Content::Comments), Content::Comments);
    let l = tag(kind_items(n, Content::Links), Content::Links);
    let i = tag(kind_items(n, Content::Images), Content::Images);
    let p = tag(kind_items(n, Content::Inputs), Content::Inputs);
    lemma_items_of_tag(kind_items(n, Content::Texts), Content::Texts, k);
    lemma_items_of_tag(kind_items(n, Content::Comments), Content::Comments, k);
    lemma_items_of_tag(kind_items(n, Content::Links), Content::Links, k);
    lemma_items_of_tag(kind_items(n, Content::Images), Content::Images, k);
    lemma_items_of_tag(kind_items(n, Content::Inputs), Content::Inputs, k);
    if j == Content::All {
        lemma_items_of_kind_concat(t, c, k);
        lemma_items_of_kind_concat(t + c, l, k);
        lemma_items_of_kind_concat(t + c + l, i, k);
        lemma_items_of_kind_concat(t + c + l + i, p, k);
        let e = Seq::<Seq<char>>::empty();
        assert(e + e =~= e);
        assert(kind_items(n, k) + e =~= kind_items(n, k));
        assert(e + kind_items(n, k) =~= kind_items(n, k));
    } else {
        lemma_items_of_tag(kind_items(n, j), j, k);
    }
}

/// JSON records read back by kind give each kind's items in their order, as
/// many times over as the kind was asked for: once, where it was asked once.
pub proof fn lemma_json_round_trip(n: Node, contents: Seq<Content>, k: Content)
    requires
        k != Content::All,
    ensures
        items_of_kind(aggregate_json_items(n, contents), k) == repeat(kind_items(n, k), times_asked(contents, k)),
        times_asked(contents, k) == 1 ==> items_of_kind(aggregate_json_items(n, contents), k) == kind_items(n, k),
    decreases contents.len(),
{
    if contents.len() > 0 {
        lemma_json_round_trip(n, contents.drop_last(), k);
        lemma_items_of_kind_concat(aggregate_json_items(n, contents.drop_last()), json_items(n, contents.last()), k);
        lemma_items_of_json(n, contents.last(), k);
        let r = repeat(kind_items(n, k), times_asked(contents.drop_last(), k));
        assert(r + Seq::<Seq<char>>::empty() =~= r);
    }
    assert(Seq::<Seq<char>>::empty() + kind_items(n, k) =~= kind_items(n, k));
}

/// Reading raw output back: the text cut at each newline.
pub open spec fn split_lines(s: Seq<char>) -> Seq<Seq<char>>
    decreases s.len(),
{
    if s.len() == 0 {
        seq![Seq::empty()]
    } else {
        let parts = split_lines(s.drop_last());
        if s.last() == '\n' {
            parts.push(Seq::empty())
        } else {
            parts.update(parts.len() - 1, parts.last().push(s.last()))
        }
    }
}

pub open spec fn no_newline(s: Seq<char>) -> bool {
    forall|i: int| 0 <= i < s.len() ==> s[i] != '\n'
}

proof fn lemma_split_nonempty(s: Seq<char>)
    ensures
        split_lines(s).len() >= 1,
    decreases s.len(),
{
    if s.len() > 0 {
        lemma_split_nonempty(s.drop_last());
    }
}

/// Text without a newline extends the last part.
proof fn lemma_split_extend(a: Seq<char>, b: Seq<char>)
    requires
        no_newline(b),
    ensures
        split_lines(a + b) == split_lines(a).update(
            split_lines(a).len() - 1,
            split_lines(a).last() + b,
        ),
    decreases b.len(),
{
    lemma_split_nonempty(a);
    if b.len() == 0 {
        assert(a + b =~= a);
        assert(split_lines(a).last() + b =~= split_lines(a).last());
        assert(split_lines(a).update(split_lines(a).len() - 1, split_lines(a).last()) =~= split_lines(a));
    } else {
        let b0 = b.drop_last();
        assert((a + b).drop_last() =~= a + b0);
        assert((a + b).last() == b.last());
        assert(b.last() == b[b.len() - 1]);
        lemma_split_extend(a, b0);
        assert(split_lines(a).last() + b =~= (split_lines(a).last() + b0).push(b.last()));
        assert(split_lines(a + b) =~= split_lines(a).update(split_lines(a).len() - 1, split_lines(a).last() + b));
    }
}

/// Lines without newlines, joined, split back into the same lines.
pub proof fn lemma_split_join(lines: Seq<Seq<char>>)
    requires
        lines.len() > 0,
        forall|k: int| 0 <= k < lines.len() ==> no_newline(#[trigger] lines[k]),
    ensures
        split_lines(join_lines(lines)) == lines,
    decreases lines.len(),
{
    reveal_strlit("\n");
    let e = Seq::<char>::empty();
    if lines.len() == 1 {
        lemma_split_extend(e, lines[0]);
        assert(e + lines[0] =~= lines[0]);
        assert(split_lines(e) =~= seq![e]);
        assert(split_lines(lines[0]) =~= lines);
    } else {
        let front = lines.drop_last();
        assert forall|k: int| 0 <= k < front.len() implies no_newline(#[trigger] front[k]) by {
            assert(front[k] == lines[k]);
        }
        lemma_split_join(front);
        let j = join_lines(front);
        let jn = j + "\n"@;
        assert(jn.drop_last() =~= j);
        assert("\n"@ =~= seq!['\n']);
        assert(jn.last() == '\n');
        assert(split_lines(jn) == split_lines(j).push(e));
        assert(no_newline(lines.last()));
        lemma_split_extend(jn, lines.last());
        assert(e + lines.last() =~= lines.last());
        assert(split_lines(jn + lines.last()) =~= lines);
    }
}

/// Raw output read back: where something was taken and no item holds a
/// newline, cutting the formatted text at each newline gives every item, in
/// order (for `All`: texts, comments, links, images and inputs).
pub proof fn lemma_raw_round_trip(n: Node, contents: Seq<Content>)
    requires
        aggregate_raw_items(n, contents).len() > 0,
        forall|k: int|
            0 <= k < aggregate_raw_items(n, contents).len() ==> no_newline(
                #[trigger] aggregate_raw_items(n, contents)[k],
            ),
    ensures
        split_lines(join_lines(aggregate_raw_items(n, contents))) == aggregate_raw_items(n, contents),
{
    lemma_split_join(aggregate_raw_items(n, contents));
}

/// The text of each URL, in order.
pub fn urls_string(urls: &Vec<Link>) -> (r: Vec<String>)
    ensures
        strings_view(r@) == urls_view(urls@),
{
    let mut r: Vec<String> = Vec::new();
    let mut i: usize = 0;
    while i < urls.len()
        invariant
            i <= urls@.len(),
            strings_view(r@) == urls_view(urls@.take(i as int)),
        decreases urls@.len() - i,
    {
        let ghost r0 = r@;
        r.push(urls[i].text.clone());
        assert(urls@.take(i + 1) =~= urls@.take(i as int).push(urls@[i as int]));
        assert(strings_view(r@) =~= strings_view(r0).push(urls@[i as int].text@));
        i += 1;
    }
    assert(urls@.take(i as int) =~= urls@);
    r
}

pub fn copy_strings(s: &Vec<String>) -> (r: Vec<String>)
    ensures
        strings_view(r@) == strings_view(s@),
{
    let mut r: Vec<String> = Vec::new();
    let mut i: usize = 0;
    while i < s.len()
        invariant
            i <= s@.len(),
            strings_view(r@) == strings_view(s@.take(i as int)),
        decreases s@.len() - i,
    {
        let ghost r0 = r@;
        r.push(s[i].clone());
        assert(s@.take(i + 1) =~= s@.take(i as int).push(s@[i as int]));
        assert(strings_view(r@) =~= strings_view(r0).push(s@[i as int]@));
        i += 1;
    }
    assert(s@.take(i as int) =~= s@);
    r
}

impl Data {
    /// Tags each item with its kind.
    pub fn json(datas: Vec<String>, content: Content) -> (r: Vec<Data>)
        ensures
            data_view(r@) == tag(strings_view(datas@), content),
    {
        let mut r: Vec<Data> = Vec::new();
        let mut i: usize = 0;
        while i < datas.len()
            invariant
                i <= datas@.len(),
                data_view(r@) == tag(strings_view(datas@.take(i as int)), content),
            decreases datas@.len() - i,
        {
            let ghost r0 = r@;
            r.push(Data { kind: content, content: datas[i].clone() });
            assert(datas@.take(i + 1) =~= datas@.take(i as int).push(datas@[i as int]));
            assert(strings_view(datas@.take(i + 1)) =~= strings_view(datas@.take(i as int)).push(datas@[i as int]@));
            assert(data_view(r@) =~= data_view(r0).push((content, datas@[i as int]@)));
            i += 1;
        }
        assert(datas@.take(i as int) =~= datas@);
        r
    }
}

impl Node {
    fn items(&self, content: Content) -> (r: Vec<String>)
        requires
            content != Content::All,
        ensures
            strings_view(r@) == kind_items(*self, content),
    {
        match content {
            Content::Texts => copy_strings(&self.texts),
            Content::Comments => copy_strings(&self.comments),
            Content::Links => urls_string(&self.links),
            Content::Images => urls_string(&self.images),
            _ => copy_strings(&self.inputs),
        }
    }

    /// The JSON records of one kind of content.
    pub fn format_json(&self, content: Content) -> (r: Vec<Data>)
        ensures
            data_view(r@) == json_items(*self, content),
    {
        match content {
            Content::All => {
                let mut r = Data::json(self.items(Content::Texts), Content::Texts);
                let mut c = Data::json(self.items(Content::Comments), Content::Comments);
                let mut l = Data::json(self.items(Content::Links), Content::Links);
                let mut i = Data::json(self.items(Content::Images), Content::Images);
                let mut p = Data::json(self.items(Content::Inputs), Content::Inputs);
                let ghost (r0, c0, l0, i0, p0) = (r@, c@, l@, i@, p@);
                r.append(&mut c);
                r.append(&mut l);
                r.append(&mut i);
                r.append(&mut p);
                assert(data_view(r@) =~= data_view(r0) + data_view(c0) + data_view(l0) + data_view(i0) + data_view(p0));
                r
            },
            _ => Data::json(self.items(content), content),
        }
    }

    /// The raw lines of one kind of content.
    pub fn format_raw(&self, content: Content) -> (r: Vec<String>)
        ensures
            strings_view(r@) == raw_items(*self, content),
    {
        match content {
            Content::All => {
                let mut r = self.items(Content::Texts);
                let mut c = self.items(Content::Comments);
                let mut l = self.items(Content::Links);
                let mut i = self.items(Content::Images);
                let mut p = self.items(Content::Inputs);
                let ghost (r0, c0, l0, i0, p0) = (r@, c@, l@, i@, p@);
                r.append(&mut c);
                r.append(&mut l);
                r.append(&mut i);
                r.append(&mut p);
                assert(strings_view(r@) =~= strings_view(r0) + strings_view(c0) + strings_view(l0) + strings_view(i0)
                    + strings_view(p0));
                r
            },
            _ => self.items(content),
        }
    }

    /// The JSON records of each kind asked for, in the order asked.
    pub fn aggregate_json(&self, contents: &Vec<Content>) -> (r: Vec<Data>)
        ensures
            data_view(r@) == aggregate_json_items(*self, contents@),
    {
        let mut r: Vec<Data> = Vec::new();
        let mut i: usize = 0;
        while i < contents.len()
            invariant
                i <= contents@.len(),
                data_view(r@) == aggregate_json_items(*self, contents@.take(i as int)),
            decreases contents@.len() - i,
        {
            let mut more = self.format_json(contents[i]);
            let ghost (r0, m0) = (r@, more@);
            r.append(&mut more);
            assert(contents@.take(i + 1).drop_last() =~= contents@.take(i as int));
            assert(data_view(r@) =~= data_view(r0) + data_view(m0));
            i += 1;
        }
        assert(contents@.take(i as int) =~= contents@);
        r
    }

    /// The raw lines of each kind asked for, in the order asked, one per
    /// line.
    pub fn aggregate_raw(&self, contents: &Vec<Content>) -> (r: String)
        ensures
            r@ == join_lines(aggregate_raw_items(*self, contents@)),
    {
        let mut lines: Vec<String> = Vec::new();
        let mut i: usize = 0;
        while i < contents.len()
            invariant
                i <= contents@.len(),
                strings_view(lines@) == aggregate_raw_items(*self, contents@.take(i as int)),
            decreases contents@.len() - i,
        {
            let mut more = self.format_raw(contents[i]);
            let ghost (l0, m0) = (lines@, more@);
            lines.append(&mut more);
            assert(contents@.take(i + 1).drop_last() =~= contents@.take(i as int));
            assert(strings_view(lines@) =~= strings_view(l0) + strings_view(m0));
            i += 1;
        }
        assert(contents@.take(i as int) =~= contents@);
        join(&lines)
    }

    /// Formats this node's content as the command asks; a graph is not
    /// formatted.
    pub fn format(&self, contents: &Vec<Content>, cmd: &Display) -> (r: Result<Output, FormatError>)
        ensures
            match cmd {
                Display::Graph => r matches Err(FormatError::Graph),
                Display::Print { format } | Display::Save { format, .. } => match format {
                    Format::Json => r matches Ok(Output::Json(d)) && data_view(d@) == aggregate_json_items(*self, contents@),
                    Format::Raw => r matches Ok(Output::Raw(s)) && s@ == join_lines(aggregate_raw_items(*self, contents@)),
                },
            },
    {
        let format = match cmd {
            Display::Print { format } => format,
            Display::Save { format, .. } => format,
            Display::Graph => return Err(FormatError::Graph),
        };
        match format {
            Format::Json => Ok(Output::Json(self.aggregate_json(contents))),
            Format::Raw => Ok(Output::Raw(self.aggregate_raw(contents))),
        }
    }
}

/// Lines joined by a newline between each two.
pub fn join(lines: &Vec<String>) -> (r: String)
    ensures
        r@ == join_lines(strings_view(lines@)),
{
    let mut r = String::new();
    let mut i: usize = 0;
    while i < lines.len()
        invariant
            i <= lines@.len(),
            r@ == join_lines(strings_view(lines@.take(i as int))),
        decreases lines@.len() - i,
    {
        let ghost prev = strings_view(lines@.take(i as int));
        assert(strings_view(lines@.take(i + 1)).drop_last() =~= prev);
        if i > 0 {
            r.append("\n");
        } else {
            assert(strings_view(lines@.take(i + 1)) =~= seq![lines@[0]@]);
        }
        r.append(lines[i].as_str());
        i += 1;
    }
    assert(lines@.take(i as int) =~= lines@);
    r
}

/// The name of the file that saved output goes to: `json` or `txt` after
/// the given name.
pub fn save_file_name(name: &String, format: Format) -> (r: String)
    ensures
        r@ == name@ + "."@ + match format {
            Format::Json => "json"@,
            Format::Raw => "txt"@,
        },
{
    let mut r = name.clone();
    r.append(".");
    match format {
        Format::Json => r.append("json"),
        Format::Raw => r.append("txt"),
    }
    r
}

} // verus!
