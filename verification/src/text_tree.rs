//! The explanation tree: a structural representation of formatted
//! diagnostic text, together with a renderer that linearizes it into an
//! indented string.
//!
//! Indentation is contextual: a `Text` leaf holding newlines is
//! re-indented by every enclosing `Nested` or `List` context, so the
//! same leaf renders differently depending on where it sits.

use vstd::prelude::*;
use vstd::string::*;

verus! {

/// How a list numbers its children: `Numbered` renders child `i` with
/// the bullet `"i:"`, `Star` renders every child with the bullet `"*"`.
#[derive(Debug, PartialEq, Eq, Clone, Copy)]
pub enum BulletStyle {
    Numbered,
    Star,
}

/// A tree of diagnostic text fragments, rendered on demand by
/// [`TextTree::render`].
#[derive(Debug, PartialEq)]
pub enum TextTree {
    Concat(Vec<TextTree>),
    Lines(Vec<TextTree>),
    List { style: BulletStyle, heading: String, children: Vec<TextTree> },
    Nested(Box<TextTree>, Box<TextTree>),
    Text(String),
}

/// True when `s` holds no newline character.
pub open spec fn no_newline(s: Seq<char>) -> bool {
    forall|i: int| 0 <= i < s.len() ==> s[i] != '\n'
}

/// `n` spaces.
pub open spec fn spaces(n: nat) -> Seq<char>
    decreases n,
{
    if n == 0 {
        Seq::empty()
    } else {
        spaces((n - 1) as nat) + seq![' ']
    }
}

/// What the renderer writes for a line break at indentation `ind`.
pub open spec fn newline_at(ind: Seq<char>) -> Seq<char> {
    seq!['\n'] + ind
}

/// `s` with every newline followed by the indentation `ind`: how the
/// renderer writes caller-supplied text inside an indented context.
pub open spec fn with_indent(s: Seq<char>, ind: Seq<char>) -> Seq<char>
    decreases s.len(),
{
    if s.len() == 0 {
        s
    } else if s[0] == '\n' {
        seq!['\n'] + ind + with_indent(s.drop_first(), ind)
    } else {
        seq![s[0]] + with_indent(s.drop_first(), ind)
    }
}

/// The character for the decimal digit `d`.
pub open spec fn digit_char(d: nat) -> char {
    if d == 0 { '0' }
    else if d == 1 { '1' }
    else if d == 2 { '2' }
    else if d == 3 { '3' }
    else if d == 4 { '4' }
    else if d == 5 { '5' }
    else if d == 6 { '6' }
    else if d == 7 { '7' }
    else if d == 8 { '8' }
    else { '9' }
}

/// The decimal representation of `n`, most significant digit first.
pub open spec fn decimal_of(n: nat) -> Seq<char>
    decreases n,
{
    if n < 10 {
        seq![digit_char(n)]
    } else {
        decimal_of(n / 10) + seq![digit_char(n % 10)]
    }
}

/// The bullet a list writes before child `idx`.
pub open spec fn bullet_text(style: BulletStyle, idx: nat) -> Seq<char> {
    match style {
        BulletStyle::Numbered => decimal_of(idx) + seq![':'],
        BulletStyle::Star => seq!['*'],
    }
}

/// The full bullet prefix for child `idx`: the bullet with one space on
/// either side. Its length is exactly the extra indentation the child
/// gets, which aligns a multi-line child under its own first character.
pub open spec fn bullet_prefix(style: BulletStyle, idx: nat) -> Seq<char> {
    seq![' '] + bullet_text(style, idx) + seq![' ']
}

/// What rendering `t` at indentation `ind` appends to the output.
pub open spec fn render_at(t: TextTree, ind: Seq<char>) -> Seq<char>
    decreases t,
{
    match t {
        TextTree::Text(s) => with_indent(s@, ind),
        TextTree::Concat(parts) => render_parts(parts@, ind),
        TextTree::Lines(items) => if items@.len() == 0 {
            Seq::empty()
        } else {
            render_at(items@[0], ind) + render_lines_rest(items@.drop_first(), ind)
        },
        TextTree::Nested(outer, inner) => render_at(*outer, ind) + seq![':'] + newline_at(
            ind + spaces(2),
        ) + render_at(*inner, ind + spaces(2)),
        TextTree::List { style, heading, children } => with_indent(heading@, ind) + seq![':']
            + render_children(style, children@, 0, ind),
    }
}

/// Concatenation of the renderings of `parts`, all at indentation `ind`.
pub open spec fn render_parts(parts: Seq<TextTree>, ind: Seq<char>) -> Seq<char>
    decreases parts,
{
    if parts.len() == 0 {
        Seq::empty()
    } else {
        render_at(parts[0], ind) + render_parts(parts.drop_first(), ind)
    }
}

/// The second and later items of a `Lines` node: each preceded by a
/// line break at indentation `ind`.
pub open spec fn render_lines_rest(items: Seq<TextTree>, ind: Seq<char>) -> Seq<char>
    decreases items,
{
    if items.len() == 0 {
        Seq::empty()
    } else {
        newline_at(ind) + render_at(items[0], ind) + render_lines_rest(items.drop_first(), ind)
    }
}

/// One list line per child: a line break at the list's own indentation,
/// the bullet prefix, then the child indented by the prefix's width.
pub open spec fn render_children(
    style: BulletStyle,
    children: Seq<TextTree>,
    idx: nat,
    ind: Seq<char>,
) -> Seq<char>
    decreases children,
{
    if children.len() == 0 {
        Seq::empty()
    } else {
        newline_at(ind) + bullet_prefix(style, idx) + render_at(
            children[0],
            ind + spaces(bullet_prefix(style, idx).len()),
        ) + render_children(style, children.drop_first(), idx + 1, ind)
    }
}

/// The string `t` renders to: rendering at empty indentation.
pub open spec fn render_spec(t: TextTree) -> Seq<char> {
    render_at(t, Seq::empty())
}

/// Re-indenting distributes over concatenation: every character is
/// rewritten independently of what stands around it.
pub proof fn lemma_with_indent_concat(a: Seq<char>, b: Seq<char>, ind: Seq<char>)
    ensures
        with_indent(a + b, ind) == with_indent(a, ind) + with_indent(b, ind),
    decreases a.len(),
{
    if a.len() == 0 {
        assert(a + b =~= b);
        assert(with_indent(a, ind) + with_indent(b, ind) =~= with_indent(b, ind));
    } else {
        lemma_with_indent_concat(a.drop_first(), b, ind);
        assert((a + b).drop_first() =~= a.drop_first() + b);
        assert((a + b)[0] == a[0]);
        if a[0] == '\n' {
            assert(with_indent(a + b, ind) =~= with_indent(a, ind) + with_indent(b, ind));
        } else {
            assert(with_indent(a + b, ind) =~= with_indent(a, ind) + with_indent(b, ind));
        }
    }
}

/// Text without newlines is written verbatim at any indentation.
pub proof fn lemma_with_indent_no_newline(s: Seq<char>, ind: Seq<char>)
    requires
        no_newline(s),
    ensures
        with_indent(s, ind) == s,
    decreases s.len(),
{
    if s.len() > 0 {
        lemma_with_indent_no_newline(s.drop_first(), ind);
        assert(with_indent(s, ind) =~= s);
    }
}

/// At empty indentation, re-indenting changes nothing.
pub proof fn lemma_with_indent_empty(s: Seq<char>)
    ensures
        with_indent(s, Seq::empty()) == s,
    decreases s.len(),
{
    if s.len() > 0 {
        lemma_with_indent_empty(s.drop_first());
        assert(with_indent(s, Seq::empty()) =~= s);
    }
}

/// A decimal representation holds digit characters only, no newline.
pub proof fn lemma_decimal_no_newline(n: nat)
    ensures
        no_newline(decimal_of(n)),
        decimal_of(n).len() >= 1,
    decreases n,
{
    if n >= 10 {
        lemma_decimal_no_newline(n / 10);
    }
}

/// The one-character string for the decimal digit `d`.
fn digit_str(d: usize) -> (r: &'static str)
    requires
        d < 10,
    ensures
        r@ == seq![digit_char(d as nat)],
{
    proof {
        reveal_strlit("0");
        reveal_strlit("1");
        reveal_strlit("2");
        reveal_strlit("3");
        reveal_strlit("4");
        reveal_strlit("5");
        reveal_strlit("6");
        reveal_strlit("7");
        reveal_strlit("8");
        reveal_strlit("9");
    }
    if d == 0 { "0" }
    else if d == 1 { "1" }
    else if d == 2 { "2" }
    else if d == 3 { "3" }
    else if d == 4 { "4" }
    else if d == 5 { "5" }
    else if d == 6 { "6" }
    else if d == 7 { "7" }
    else if d == 8 { "8" }
    else { "9" }
}

/// The decimal representation of `n`.
fn decimal_string(n: usize) -> (r: String)
    ensures
        r@ == decimal_of(n as nat),
    decreases n,
{
    if n < 10 {
        digit_str(n).to_owned()
    } else {
        let mut r = decimal_string(n / 10);
        r.append(digit_str(n % 10));
        r
    }
}

/// The bullet prefix written before child `idx` of a list.
fn bullet_prefix_string(style: &BulletStyle, idx: usize) -> (r: String)
    ensures
        r@ == bullet_prefix(*style, idx as nat),
{
    proof {
        reveal_strlit(" ");
        reveal_strlit(":");
        reveal_strlit(" * ");
    }
    match style {
        BulletStyle::Numbered => {
            let mut r = " ".to_owned();
            r.append(decimal_string(idx).as_str());
            r.append(":");
            r.append(" ");
            proof {
                assert(r@ =~= bullet_prefix(*style, idx as nat));
            }
            r
        },
        BulletStyle::Star => {
            let r = " * ".to_owned();
            proof {
                assert(r@ =~= bullet_prefix(*style, idx as nat));
            }
            r
        },
    }
}

/// A bullet prefix holds no newline.
pub proof fn lemma_bullet_prefix_no_newline(style: BulletStyle, idx: nat)
    ensures
        no_newline(bullet_prefix(style, idx)),
        bullet_prefix(style, idx).len() >= 3,
{
    match style {
        BulletStyle::Numbered => {
            lemma_decimal_no_newline(idx);
        },
        BulletStyle::Star => {},
    }
}

proof fn lemma_render_parts_take(parts: Seq<TextTree>, k: int, ind: Seq<char>)
    requires
        0 <= k < parts.len(),
    ensures
        render_parts(parts.take(k + 1), ind) == render_parts(parts.take(k), ind) + render_at(
            parts[k],
            ind,
        ),
    decreases k,
{
    if k == 0 {
        assert(parts.take(1).drop_first() =~= Seq::empty());
        assert(render_parts(parts.take(0), ind) + render_at(parts[0], ind) =~= render_at(
            parts[0],
            ind,
        ) + render_parts(Seq::empty(), ind));
    } else {
        lemma_render_parts_take(parts.drop_first(), k - 1, ind);
        assert(parts.take(k + 1).drop_first() =~= parts.drop_first().take(k));
        assert(parts.take(k).drop_first() =~= parts.drop_first().take(k - 1));
        assert(parts.drop_first()[k - 1] == parts[k]);
        assert(render_at(parts[0], ind) + (render_parts(parts.drop_first().take(k - 1), ind)
            + render_at(parts[k], ind)) =~= (render_at(parts[0], ind) + render_parts(
            parts.drop_first().take(k - 1),
            ind,
        )) + render_at(parts[k], ind));
    }
}

proof fn lemma_render_lines_rest_take(items: Seq<TextTree>, k: int, ind: Seq<char>)
    requires
        0 <= k < items.len(),
    ensures
        render_lines_rest(items.take(k + 1), ind) == render_lines_rest(items.take(k), ind)
            + newline_at(ind) + render_at(items[k], ind),
    decreases k,
{
    if k == 0 {
        assert(items.take(1).drop_first() =~= Seq::empty());
        assert(items.take(1)[0] == items[0]);
        assert(render_lines_rest(Seq::<TextTree>::empty(), ind) == Seq::<char>::empty());
        assert(render_lines_rest(items.take(0), ind) == Seq::<char>::empty());
        assert(render_lines_rest(items.take(1), ind) =~= render_lines_rest(items.take(0), ind)
            + newline_at(ind) + render_at(items[0], ind));
    } else {
        lemma_render_lines_rest_take(items.drop_first(), k - 1, ind);
        assert(items.take(k + 1).drop_first() =~= items.drop_first().take(k));
        assert(items.take(k).drop_first() =~= items.drop_first().take(k - 1));
        assert(items.drop_first()[k - 1] == items[k]);
        assert(newline_at(ind) + render_at(items[0], ind) + (render_lines_rest(
            items.drop_first().take(k - 1),
            ind,
        ) + newline_at(ind) + render_at(items[k], ind)) =~= (newline_at(ind) + render_at(
            items[0],
            ind,
        ) + render_lines_rest(items.drop_first().take(k - 1), ind)) + newline_at(ind) + render_at(
            items[k],
            ind,
        ));
    }
}

proof fn lemma_render_children_take(
    style: BulletStyle,
    children: Seq<TextTree>,
    k: int,
    idx: nat,
    ind: Seq<char>,
)
    requires
        0 <= k < children.len(),
    ensures
        render_children(style, children.take(k + 1), idx, ind) == render_children(
            style,
            children.take(k),
            idx,
            ind,
        ) + newline_at(ind) + bullet_prefix(style, (idx + k) as nat) + render_at(
            children[k],
            ind + spaces(bullet_prefix(style, (idx + k) as nat).len()),
        ),
    decreases k,
{
    let line = |child: TextTree, i: nat|
        newline_at(ind) + bullet_prefix(style, i) + render_at(
            child,
            ind + spaces(bullet_prefix(style, i).len()),
        );
    if k == 0 {
        assert(children.take(1).drop_first() =~= Seq::empty());
        assert(children.take(1)[0] == children[0]);
        assert(render_children(style, Seq::<TextTree>::empty(), (idx + 1) as nat, ind)
            == Seq::<char>::empty());
        assert(render_children(style, children.take(0), idx, ind) == Seq::<char>::empty());
        assert(render_children(style, children.take(1), idx, ind) =~= render_children(
            style,
            children.take(0),
            idx,
            ind,
        ) + line(children[0], idx));
    } else {
        lemma_render_children_take(style, children.drop_first(), k - 1, idx + 1, ind);
        assert(children.take(k + 1).drop_first() =~= children.drop_first().take(k));
        assert(children.take(k).drop_first() =~= children.drop_first().take(k - 1));
        assert(children.drop_first()[k - 1] == children[k]);
        assert(line(children[0], idx) + (render_children(
            style,
            children.drop_first().take(k - 1),
            idx + 1,
            ind,
        ) + line(children[k], (idx + k) as nat)) =~= (line(children[0], idx) + render_children(
            style,
            children.drop_first().take(k - 1),
            idx + 1,
            ind,
        )) + line(children[k], (idx + k) as nat));
    }
}

/// The single-pass writer: the output accumulated so far, and the
/// current indentation, held as the very spaces a line break writes.
pub struct TextTreeWriter {
    pub indent: String,
    pub string: String,
}

impl TextTreeWriter {
    pub fn new() -> (r: TextTreeWriter)
        ensures
            r.indent@ == Seq::<char>::empty(),
            r.string@ == Seq::<char>::empty(),
    {
        TextTreeWriter { indent: String::new(), string: String::new() }
    }

    /// Begin a new output line at the current indentation.
    pub fn new_line(&mut self)
        ensures
            final(self).indent@ == old(self).indent@,
            final(self).string@ == old(self).string@ + newline_at(old(self).indent@),
    {
        proof {
            reveal_strlit("\n");
        }
        self.string.append("\n");
        let ind = self.indent.clone();
        self.string.append(ind.as_str());
        proof {
            assert(self.string@ =~= old(self).string@ + newline_at(old(self).indent@));
        }
    }

    /// Widen the current indentation by `n` spaces.
    pub fn push_indent(&mut self, n: usize)
        ensures
            final(self).indent@ == old(self).indent@ + spaces(n as nat),
            final(self).string@ == old(self).string@,
    {
        proof {
            reveal_strlit(" ");
            assert(old(self).indent@ + spaces(0) =~= old(self).indent@);
        }
        let mut i: usize = 0;
        while i < n
            invariant
                i <= n,
                self.indent@ == old(self).indent@ + spaces(i as nat),
                self.string@ == old(self).string@,
                " "@ == seq![' '],
            decreases n - i,
        {
            self.indent.append(" ");
            proof {
                assert(self.indent@ =~= old(self).indent@ + spaces((i + 1) as nat));
            }
            i = i + 1;
        }
    }

    /// Write `text`, re-indenting it after each of its own newlines:
    /// this is what makes a multi-line leaf sit correctly inside any
    /// nesting context.
    pub fn write_str(&mut self, text: &str)
        ensures
            final(self).indent@ == old(self).indent@,
            final(self).string@ == old(self).string@ + with_indent(text@, old(self).indent@),
    {
        let ghost ind = self.indent@;
        let n = text.unicode_len();
        let mut start: usize = 0;
        let mut i: usize = 0;
        while i < n
            invariant
                n == text@.len(),
                start <= i <= n,
                ind == old(self).indent@,
                self.indent@ == old(self).indent@,
                self.string@ == old(self).string@ + with_indent(
                    text@.take(start as int),
                    old(self).indent@,
                ),
                no_newline(text@.subrange(start as int, i as int)),
            decreases n - i,
        {
            let c = text.get_char(i);
            if c == '\n' {
                let segment = text.substring_char(start, i);
                self.string.append(segment);
                self.new_line();
                proof {
                    let pre = text@.take(start as int);
                    let seg = text@.subrange(start as int, i as int);
                    lemma_with_indent_concat(pre, seg, ind);
                    lemma_with_indent_concat(pre + seg, seq!['\n'], ind);
                    lemma_with_indent_no_newline(seg, ind);
                    assert(seq!['\n'].drop_first() =~= Seq::<char>::empty());
                    assert(with_indent(Seq::<char>::empty(), ind) == Seq::<char>::empty());
                    assert(with_indent(seq!['\n'], ind) =~= newline_at(ind));
                    assert(pre + seg + seq!['\n'] =~= text@.take(i + 1));
                    assert(with_indent((pre + seg) + seq!['\n'], ind) == (with_indent(pre, ind)
                        + seg) + newline_at(ind));
                    assert(with_indent(text@.take(i + 1), ind) == (with_indent(pre, ind) + seg)
                        + newline_at(ind));
                    assert(self.string@ == ((old(self).string@ + with_indent(pre, ind)) + seg)
                        + newline_at(ind));
                    assert(self.string@ =~= old(self).string@ + with_indent(
                        text@.take(i + 1),
                        ind,
                    ));
                }
                start = i + 1;
            } else {
                proof {
                    assert(text@.subrange(start as int, i + 1) =~= text@.subrange(
                        start as int,
                        i as int,
                    ) + seq![text@[i as int]]);
                }
            }
            i = i + 1;
        }
        let segment = text.substring_char(start, n);
        self.string.append(segment);
        proof {
            let pre = text@.take(start as int);
            let seg = text@.subrange(start as int, n as int);
            lemma_with_indent_concat(pre, seg, ind);
            lemma_with_indent_no_newline(seg, ind);
            assert(pre + seg =~= text@);
            assert(self.string@ =~= old(self).string@ + with_indent(text@, ind));
        }
    }
}

impl TextTree {
    /// Literal text; it may hold newlines, which every enclosing
    /// context re-indents.
    pub fn text(text: &str) -> (r: TextTree)
        ensures
            r matches TextTree::Text(s) && s@ == text@,
    {
        TextTree::Text(text.to_owned())
    }

    /// The standard debug form of `value`, captured now as a `Text`
    /// leaf; no reference to `value` is retained.
    ///
    /// Relies on `format!` with the `{:?}` format, that is on `value`'s
    /// `core::fmt::Debug` implementation, for the text of the leaf;
    /// nothing is assumed about that text.
    #[verifier::external_body]
    pub fn debug<T: core::fmt::Debug>(value: T) -> (r: TextTree)
        ensures
            r is Text,
    {
        TextTree::Text(format!("{value:?}"))
    }

    /// Horizontal concatenation: no separator, no added indentation.
    pub fn concat(parts: Vec<TextTree>) -> (r: TextTree)
        ensures
            r == TextTree::Concat(parts),
    {
        TextTree::Concat(parts)
    }

    /// Vertical stacking: each element begins on its own line.
    pub fn lines(lines: Vec<TextTree>) -> (r: TextTree)
        ensures
            r == TextTree::Lines(lines),
    {
        TextTree::Lines(lines)
    }

    /// A "heading: detail" pair: `outer`, a colon, then `inner` on a
    /// new line indented two further columns.
    pub fn nested(outer: TextTree, inner: TextTree) -> (r: TextTree)
        ensures
            r matches TextTree::Nested(o, i) && *o == outer && *i == inner,
    {
        TextTree::Nested(Box::new(outer), Box::new(inner))
    }

    /// A numbered list: child `i` gets the bullet `"i:"`.
    pub fn ordered_list(heading: &str, children: Vec<TextTree>) -> (r: TextTree)
        ensures
            r matches TextTree::List { style, heading: h, children: c } && style
                == BulletStyle::Numbered && h@ == heading@ && c == children,
    {
        TextTree::List { style: BulletStyle::Numbered, heading: heading.to_owned(), children }
    }

    /// A bulleted list: every child gets the bullet `"*"`.
    pub fn unordered_list(heading: &str, children: Vec<TextTree>) -> (r: TextTree)
        ensures
            r matches TextTree::List { style, heading: h, children: c } && style
                == BulletStyle::Star && h@ == heading@ && c == children,
    {
        TextTree::List { style: BulletStyle::Star, heading: heading.to_owned(), children }
    }

    /// Append this tree's rendering to `writer` at its current
    /// indentation.
    #[verifier::loop_isolation(false)]
    pub fn write(&self, writer: &mut TextTreeWriter)
        ensures
            final(writer).indent@ == old(writer).indent@,
            final(writer).string@ == old(writer).string@ + render_at(*self, old(writer).indent@),
        decreases *self,
    {
        let ghost ind = old(writer).indent@;
        match self {
            TextTree::Text(text) => {
                writer.write_str(text.as_str());
            },
            TextTree::Concat(parts) => {
                proof {
                    assert(writer.string@ + render_parts(parts@.take(0), ind) =~= writer.string@);
                }
                let mut k: usize = 0;
                while k < parts.len()
                    invariant
                        k <= parts@.len(),
                        ind == old(writer).indent@,
                        writer.indent@ == ind,
                        writer.string@ == old(writer).string@ + render_parts(
                            parts@.take(k as int),
                            ind,
                        ),
                    decreases parts@.len() - k,
                {
                    parts[k].write(writer);
                    proof {
                        lemma_render_parts_take(parts@, k as int, ind);
                    }
                    k = k + 1;
                }
                proof {
                    assert(parts@.take(parts@.len() as int) =~= parts@);
                }
            },
            TextTree::Lines(items) => {
                if items.len() > 0 {
                    items[0].write(writer);
                    proof {
                        assert(writer.string@ + render_lines_rest(items@.drop_first().take(0), ind)
                            =~= writer.string@);
                    }
                    let mut k: usize = 1;
                    while k < items.len()
                        invariant
                            1 <= k <= items@.len(),
                            ind == old(writer).indent@,
                            writer.indent@ == ind,
                            writer.string@ == old(writer).string@ + render_at(items@[0], ind)
                                + render_lines_rest(items@.drop_first().take(k - 1), ind),
                        decreases items@.len() - k,
                    {
                        writer.new_line();
                        items[k].write(writer);
                        proof {
                            lemma_render_lines_rest_take(items@.drop_first(), k - 1, ind);
                            assert(items@.drop_first()[k - 1] == items@[k as int]);
                        }
                        k = k + 1;
                    }
                    proof {
                        assert(items@.drop_first().take(items@.len() - 1) =~= items@.drop_first());
                    }
                }
            },
            TextTree::Nested(outer, inner) => {
                outer.write(writer);
                writer.write_str(":");
                let saved = writer.indent.clone();
                writer.push_indent(2);
                writer.new_line();
                inner.write(writer);
                writer.indent = saved;
                proof {
                    reveal_strlit(":");
                    assert(":"@ =~= seq![':']);
                    lemma_with_indent_no_newline(seq![':'], ind);
                    assert(writer.string@ =~= old(writer).string@ + render_at(*self, ind));
                }
            },
            TextTree::List { style, heading, children } => {
                writer.write_str(heading.as_str());
                writer.write_str(":");
                proof {
                    reveal_strlit(":");
                    assert(":"@ =~= seq![':']);
                    lemma_with_indent_no_newline(seq![':'], ind);
                    assert(writer.string@ + render_children(*style, children@.take(0), 0, ind)
                        =~= writer.string@);
                }
                let mut k: usize = 0;
                while k < children.len()
                    invariant
                        k <= children@.len(),
                        ind == old(writer).indent@,
                        writer.indent@ == ind,
                        writer.string@ == old(writer).string@ + with_indent(heading@, ind)
                            + seq![':'] + render_children(*style, children@.take(k as int), 0, ind),
                    decreases children@.len() - k,
                {
                    writer.new_line();
                    let prefix = bullet_prefix_string(style, k);
                    writer.write_str(prefix.as_str());
                    let saved = writer.indent.clone();
                    let width = prefix.unicode_len();
                    writer.push_indent(width);
                    children[k].write(writer);
                    writer.indent = saved;
                    proof {
                        lemma_bullet_prefix_no_newline(*style, k as nat);
                        lemma_with_indent_no_newline(bullet_prefix(*style, k as nat), ind);
                        lemma_render_children_take(*style, children@, k as int, 0, ind);
                    }
                    k = k + 1;
                }
                proof {
                    assert(children@.take(children@.len() as int) =~= children@);
                }
            },
        }
    }

    /// Render this tree to its final string: a pure function of the
    /// tree, beginning at empty indentation.
    pub fn render(&self) -> (r: String)
        ensures
            r@ == render_spec(*self),
    {
        let mut writer = TextTreeWriter::new();
        self.write(&mut writer);
        proof {
            assert(writer.string@ =~= render_spec(*self));
        }
        writer.string
    }
}


/// Re-indenting twice is re-indenting once with the joined
/// indentation, provided the inner indentation holds no newline.
pub proof fn lemma_with_indent_compose(s: Seq<char>, a: Seq<char>, b: Seq<char>)
    requires
        no_newline(a),
    ensures
        with_indent(with_indent(s, a), b) == with_indent(s, b + a),
    decreases s.len(),
{
    if s.len() == 0 {
    } else if s[0] == '\n' {
        lemma_with_indent_compose(s.drop_first(), a, b);
        lemma_with_indent_concat(seq!['\n'] + a, with_indent(s.drop_first(), a), b);
        lemma_with_indent_concat(seq!['\n'], a, b);
        lemma_with_indent_no_newline(a, b);
        assert(seq!['\n'].drop_first() =~= Seq::<char>::empty());
        assert(with_indent(Seq::<char>::empty(), b) == Seq::<char>::empty());
        assert(with_indent(seq!['\n'], b) =~= seq!['\n'] + b);
        assert(with_indent(s, a) =~= (seq!['\n'] + a) + with_indent(s.drop_first(), a));
        assert(with_indent(s, b + a) =~= seq!['\n'] + (b + a) + with_indent(
            s.drop_first(),
            b + a,
        ));
        assert(with_indent(with_indent(s, a), b) =~= with_indent(s, b + a));
    } else {
        lemma_with_indent_compose(s.drop_first(), a, b);
        lemma_with_indent_concat(seq![s[0]], with_indent(s.drop_first(), a), b);
        assert(seq![s[0]].drop_first() =~= Seq::<char>::empty());
        assert(with_indent(Seq::<char>::empty(), b) == Seq::<char>::empty());
        assert(with_indent(seq![s[0]], b) =~= seq![s[0]]);
        assert(with_indent(s, a) =~= seq![s[0]] + with_indent(s.drop_first(), a));
        assert(with_indent(with_indent(s, a), b) =~= with_indent(s, b + a));
    }
}

/// The nesting indentation law, in its general form: rendering at
/// indentation `ind` is the top-level rendering with every newline
/// re-indented by `ind`.
pub proof fn lemma_render_at_indent(t: TextTree, ind: Seq<char>)
    ensures
        render_at(t, ind) == with_indent(render_spec(t), ind),
    decreases t,
{
    let e = Seq::<char>::empty();
    match t {
        TextTree::Text(s) => {
            lemma_with_indent_empty(s@);
        },
        TextTree::Concat(parts) => {
            lemma_render_parts_indent(parts@, ind);
        },
        TextTree::Lines(items) => {
            if items@.len() > 0 {
                lemma_render_at_indent(items@[0], ind);
                lemma_render_lines_rest_indent(items@.drop_first(), ind);
                lemma_with_indent_concat(
                    render_at(items@[0], e),
                    render_lines_rest(items@.drop_first(), e),
                    ind,
                );
            }
        },
        TextTree::Nested(outer, inner) => {
            let sp = spaces(2);
            lemma_render_at_indent(*outer, ind);
            lemma_render_at_indent(*inner, ind + sp);
            lemma_render_at_indent(*inner, sp);
            lemma_spaces_no_newline(2);
            lemma_with_indent_compose(render_spec(*inner), sp, ind);
            lemma_with_indent_concat(render_at(*outer, e) + seq![':'] + seq!['\n'] + sp,
                render_at(*inner, sp), ind);
            lemma_with_indent_concat(render_at(*outer, e) + seq![':'] + seq!['\n'], sp, ind);
            lemma_with_indent_concat(render_at(*outer, e) + seq![':'], seq!['\n'], ind);
            lemma_with_indent_concat(render_at(*outer, e), seq![':'], ind);
            assert(no_newline(seq![':']));
            lemma_with_indent_no_newline(seq![':'], ind);
            lemma_with_indent_no_newline(sp, ind);
            assert(seq!['\n'].drop_first() =~= Seq::<char>::empty());
            assert(with_indent(Seq::<char>::empty(), ind) == Seq::<char>::empty());
            assert(with_indent(seq!['\n'], ind) =~= seq!['\n'] + ind);
            assert(render_spec(t) =~= ((render_at(*outer, e) + seq![':'] + seq!['\n'] + sp)
                + render_at(*inner, sp)));
            assert(render_at(t, ind) =~= with_indent(render_spec(t), ind));
        },
        TextTree::List { style, heading, children } => {
            lemma_render_children_indent(style, children@, 0, ind);
            lemma_with_indent_empty(heading@);
            lemma_with_indent_concat(heading@ + seq![':'], render_children(style, children@, 0, e),
                ind);
            lemma_with_indent_concat(heading@, seq![':'], ind);
            assert(no_newline(seq![':']));
            lemma_with_indent_no_newline(seq![':'], ind);
            assert(render_spec(t) =~= (heading@ + seq![':']) + render_children(
                style,
                children@,
                0,
                e,
            ));
            assert(render_at(t, ind) =~= with_indent(render_spec(t), ind));
        },
    }
}

proof fn lemma_render_parts_indent(parts: Seq<TextTree>, ind: Seq<char>)
    ensures
        render_parts(parts, ind) == with_indent(render_parts(parts, Seq::empty()), ind),
    decreases parts,
{
    let e = Seq::<char>::empty();
    if parts.len() == 0 {
    } else {
        lemma_render_at_indent(parts[0], ind);
        lemma_render_parts_indent(parts.drop_first(), ind);
        lemma_with_indent_concat(render_at(parts[0], e), render_parts(parts.drop_first(), e), ind);
    }
}

proof fn lemma_render_lines_rest_indent(items: Seq<TextTree>, ind: Seq<char>)
    ensures
        render_lines_rest(items, ind) == with_indent(render_lines_rest(items, Seq::empty()), ind),
    decreases items,
{
    let e = Seq::<char>::empty();
    if items.len() == 0 {
    } else {
        lemma_render_at_indent(items[0], ind);
        lemma_render_lines_rest_indent(items.drop_first(), ind);
        lemma_with_indent_concat(seq!['\n'] + render_at(items[0], e),
            render_lines_rest(items.drop_first(), e), ind);
        lemma_with_indent_concat(seq!['\n'], render_at(items[0], e), ind);
        assert(seq!['\n'].drop_first() =~= Seq::<char>::empty());
        assert(with_indent(Seq::<char>::empty(), ind) == Seq::<char>::empty());
        assert(with_indent(seq!['\n'], ind) =~= seq!['\n'] + ind);
        assert(newline_at(e) =~= seq!['\n']);
        assert(render_lines_rest(items, e) =~= (seq!['\n'] + render_at(items[0], e))
            + render_lines_rest(items.drop_first(), e));
        assert(render_lines_rest(items, ind) =~= with_indent(render_lines_rest(items, e), ind));
    }
}

proof fn lemma_render_children_indent(
    style: BulletStyle,
    children: Seq<TextTree>,
    idx: nat,
    ind: Seq<char>,
)
    ensures
        render_children(style, children, idx, ind) == with_indent(
            render_children(style, children, idx, Seq::empty()),
            ind,
        ),
    decreases children,
{
    let e = Seq::<char>::empty();
    if children.len() == 0 {
    } else {
        let pfx = bullet_prefix(style, idx);
        let sp = spaces(pfx.len());
        lemma_render_at_indent(children[0], ind + sp);
        lemma_render_at_indent(children[0], sp);
        lemma_spaces_no_newline(pfx.len());
        lemma_with_indent_compose(render_spec(children[0]), sp, ind);
        lemma_render_children_indent(style, children.drop_first(), idx + 1, ind);
        lemma_bullet_prefix_no_newline(style, idx);
        lemma_with_indent_concat((seq!['\n'] + pfx) + render_at(children[0], sp),
            render_children(style, children.drop_first(), idx + 1, e), ind);
        lemma_with_indent_concat(seq!['\n'] + pfx, render_at(children[0], sp), ind);
        lemma_with_indent_concat(seq!['\n'], pfx, ind);
        lemma_with_indent_no_newline(pfx, ind);
        assert(seq!['\n'].drop_first() =~= Seq::<char>::empty());
        assert(with_indent(Seq::<char>::empty(), ind) == Seq::<char>::empty());
        assert(with_indent(seq!['\n'], ind) =~= seq!['\n'] + ind);
        assert(newline_at(e) =~= seq!['\n']);
        assert(render_children(style, children, idx, e) =~= ((seq!['\n'] + pfx) + render_at(
            children[0],
            sp,
        )) + render_children(style, children.drop_first(), idx + 1, e));
        assert(render_children(style, children, idx, ind) =~= with_indent(
            render_children(style, children, idx, e),
            ind,
        ));
    }
}

/// Spaces hold no newline.
pub proof fn lemma_spaces_no_newline(n: nat)
    ensures
        no_newline(spaces(n)),
        spaces(n).len() == n,
    decreases n,
{
    if n > 0 {
        lemma_spaces_no_newline((n - 1) as nat);
    }
}


/// Rendering identity law: a text leaf renders to its own content.
pub proof fn lemma_render_text(s: String)
    ensures
        render_spec(TextTree::Text(s)) == s@,
{
    lemma_with_indent_empty(s@);
}

/// Rendering identity law: a two-part concatenation renders to the
/// renderings of its parts, one after the other.
pub proof fn lemma_render_concat_pair(t: TextTree)
    ensures
        t matches TextTree::Concat(parts) ==> parts@.len() == 2 ==> render_spec(t) == render_spec(
            parts@[0],
        ) + render_spec(parts@[1]),
{
    if let TextTree::Concat(parts) = t {
        if parts@.len() != 2 {
            return ;
        }
        let e = Seq::<char>::empty();
        assert(parts@.drop_first().drop_first() =~= Seq::<TextTree>::empty());
        assert(render_parts(Seq::<TextTree>::empty(), e) == Seq::<char>::empty());
        assert(parts@.drop_first()[0] == parts@[1]);
        assert(render_parts(parts@.drop_first(), e) =~= render_spec(parts@[1]));
        assert(render_parts(parts@, e) =~= render_at(parts@[0], e) + render_parts(
            parts@.drop_first(),
            e,
        ));
        assert(render_spec(t) =~= render_spec(parts@[0]) + render_spec(parts@[1]));
    }
}

/// Rendering identity law: two stacked lines render to the renderings
/// of the lines with a single newline between them.
pub proof fn lemma_render_lines_pair(t: TextTree)
    ensures
        t matches TextTree::Lines(items) ==> items@.len() == 2 ==> render_spec(t) == render_spec(
            items@[0],
        ) + seq!['\n'] + render_spec(items@[1]),
{
    if let TextTree::Lines(items) = t {
        if items@.len() != 2 {
            return ;
        }
        let e = Seq::<char>::empty();
        assert(items@.drop_first().drop_first() =~= Seq::<TextTree>::empty());
        assert(render_lines_rest(Seq::<TextTree>::empty(), e) == Seq::<char>::empty());
        assert(items@.drop_first()[0] == items@[1]);
        assert(newline_at(e) =~= seq!['\n']);
        assert(render_lines_rest(items@.drop_first(), e) =~= (seq!['\n'] + render_spec(items@[1]))
            + Seq::<char>::empty());
        assert(render_spec(t) =~= render_spec(items@[0]) + seq!['\n'] + render_spec(items@[1]));
    }
}

/// Nesting indentation law: a heading nested over any tree renders as
/// the heading, a colon, then the tree's own rendering on a new line
/// with two further spaces after each of its newlines.
pub proof fn lemma_render_nested_text(t: TextTree)
    ensures
        t matches TextTree::Nested(outer, inner) ==> *outer matches TextTree::Text(h)
            ==> no_newline(h@) ==> render_spec(t) == h@ + seq![':', '\n', ' ', ' '] + with_indent(
            render_spec(*inner),
            seq![' ', ' '],
        ),
{
    if let TextTree::Nested(outer, inner) = t {
        if let TextTree::Text(h) = *outer {
            if !no_newline(h@) {
                return ;
            }
            let e = Seq::<char>::empty();
        lemma_with_indent_no_newline(h@, e);
            lemma_render_at_indent(*inner, spaces(2));
            assert(spaces(0) =~= Seq::<char>::empty());
            assert(spaces(1) =~= seq![' ']);
            assert(spaces(2) =~= seq![' ', ' ']);
            lemma_with_indent_no_newline(h@, e);
            assert(newline_at(e + spaces(2)) =~= seq!['\n', ' ', ' ']);
            assert(e + spaces(2) =~= spaces(2));
            assert(render_at(*outer, e) == with_indent(h@, e));
            assert(render_at(t, e) == render_at(*outer, e) + seq![':'] + newline_at(
                e + spaces(2),
            ) + render_at(*inner, e + spaces(2)));
            assert(render_spec(t) =~= h@ + seq![':', '\n', ' ', ' '] + with_indent(
                render_spec(*inner),
                seq![' ', ' '],
            ));
        }
    }
}

/// List bullet alignment law: in a bulleted list of two children, each
/// child stands after the three-column prefix `" * "` and each of its
/// own newlines is followed by exactly three spaces, so its later
/// lines align under the first character of its first line.
pub proof fn lemma_render_star_list_pair(t: TextTree)
    ensures
        t matches TextTree::List { style, heading, children } ==> (style == BulletStyle::Star
            && no_newline(heading@) && children@.len() == 2) ==> render_spec(t) == heading@ + seq![
            ':',
            '\n',
            ' ',
            '*',
            ' ',
        ] + with_indent(render_spec(children@[0]), spaces(3)) + seq!['\n', ' ', '*', ' ']
            + with_indent(render_spec(children@[1]), spaces(3)),
{
    if let TextTree::List { style, heading, children } = t {
        if !(style == BulletStyle::Star && no_newline(heading@) && children@.len() == 2) {
            return ;
        }
        let e = Seq::<char>::empty();
        lemma_with_indent_no_newline(heading@, e);
        let pfx = bullet_prefix(style, 0);
        assert(spaces(0) =~= Seq::<char>::empty());
        assert(spaces(1) =~= seq![' ']);
        assert(spaces(2) =~= seq![' ', ' ']);
        assert(spaces(3) =~= seq![' ', ' ', ' ']);
        assert(pfx =~= seq![' ', '*', ' ']);
        assert(bullet_prefix(style, 1) =~= seq![' ', '*', ' ']);
        assert(pfx.len() == 3);
        lemma_render_at_indent(children@[0], spaces(3));
        lemma_render_at_indent(children@[1], spaces(3));
        assert(children@.drop_first()[0] == children@[1]);
        assert(children@.drop_first().drop_first() =~= Seq::<TextTree>::empty());
        assert(render_children(style, Seq::<TextTree>::empty(), 2, e) == Seq::<char>::empty());
        assert(newline_at(e) =~= seq!['\n']);
        assert(e + spaces(3) =~= spaces(3));
        assert(render_children(style, children@, 0, e) == newline_at(e) + bullet_prefix(style, 0)
            + render_at(children@[0], e + spaces(bullet_prefix(style, 0).len()))
            + render_children(style, children@.drop_first(), 1, e));
        assert(render_at(t, e) == with_indent(heading@, e) + seq![':'] + render_children(
            style,
            children@,
            0,
            e,
        ));
        assert(render_children(style, children@.drop_first(), 1, e) =~= (seq!['\n'] + seq![
            ' ',
            '*',
            ' ',
        ] + render_at(children@[1], spaces(3))) + Seq::<char>::empty());
        assert(render_spec(t) =~= heading@ + seq![':', '\n', ' ', '*', ' '] + with_indent(
            render_spec(children@[0]),
            spaces(3),
        ) + seq!['\n', ' ', '*', ' '] + with_indent(render_spec(children@[1]), spaces(3)));
    }
}


/// Numbered bullet law: in a numbered list of two children, child `i`
/// stands after the four-column prefix `" i: "` and each of its own
/// newlines is followed by exactly four spaces.
pub proof fn lemma_render_numbered_list_pair(t: TextTree)
    ensures
        t matches TextTree::List { style, heading, children } ==> (style == BulletStyle::Numbered
            && no_newline(heading@) && children@.len() == 2) ==> render_spec(t) == heading@ + seq![
            ':',
            '\n',
            ' ',
            '0',
            ':',
            ' ',
        ] + with_indent(render_spec(children@[0]), spaces(4)) + seq!['\n', ' ', '1', ':', ' ']
            + with_indent(render_spec(children@[1]), spaces(4)),
{
    if let TextTree::List { style, heading, children } = t {
        if !(style == BulletStyle::Numbered && no_newline(heading@) && children@.len() == 2) {
            return ;
        }
        let e = Seq::<char>::empty();
        lemma_with_indent_no_newline(heading@, e);
        assert(spaces(0) =~= Seq::<char>::empty());
        assert(spaces(1) =~= seq![' ']);
        assert(spaces(2) =~= seq![' ', ' ']);
        assert(spaces(3) =~= seq![' ', ' ', ' ']);
        assert(spaces(4) =~= seq![' ', ' ', ' ', ' ']);
        assert(decimal_of(0) =~= seq!['0']);
        assert(decimal_of(1) =~= seq!['1']);
        let pfx0 = bullet_prefix(style, 0);
        let pfx1 = bullet_prefix(style, 1);
        assert(pfx0 =~= seq![' ', '0', ':', ' ']);
        assert(pfx1 =~= seq![' ', '1', ':', ' ']);
        assert(pfx0.len() == 4 && pfx1.len() == 4);
        lemma_render_at_indent(children@[0], spaces(4));
        lemma_render_at_indent(children@[1], spaces(4));
        assert(children@.drop_first()[0] == children@[1]);
        assert(children@.drop_first().drop_first() =~= Seq::<TextTree>::empty());
        assert(render_children(style, Seq::<TextTree>::empty(), 2, e) == Seq::<char>::empty());
        assert(newline_at(e) =~= seq!['\n']);
        assert(e + spaces(4) =~= spaces(4));
        assert(render_children(style, children@, 0, e) == newline_at(e) + bullet_prefix(style, 0)
            + render_at(children@[0], e + spaces(bullet_prefix(style, 0).len()))
            + render_children(style, children@.drop_first(), 1, e));
        assert(render_at(t, e) == with_indent(heading@, e) + seq![':'] + render_children(
            style,
            children@,
            0,
            e,
        ));
        assert(render_children(style, children@.drop_first(), 1, e) =~= (seq!['\n'] + pfx1
            + render_at(children@[1], spaces(4))) + Seq::<char>::empty());
        assert(render_spec(t) =~= heading@ + seq![':', '\n', ' ', '0', ':', ' '] + with_indent(
            render_spec(children@[0]),
            spaces(4),
        ) + seq!['\n', ' ', '1', ':', ' '] + with_indent(render_spec(children@[1]), spaces(4)));
    }
}

} // verus!


