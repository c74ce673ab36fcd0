//! A document: its text, the text's line table, and its syntax tree.
use vstd::prelude::*;
use vstd::utf8::encode_utf8;
use crate::text_index::{build_line_starts, line_starts_of, lines_wf, lemma_line_starts_wf};
use crate::model::{build_node, mirrors, raw_ok, ParseError, RawNode};
use crate::syntax::{check_shape, in_bounds, shape_ok, Cst};
use crate::equivalence::{lemma_mirrors_equiv, lemma_shape_equiv};

verus! {

/// A parsed snapshot of one text.
pub struct Document {
    text: String,
    bytes: Vec<u8>,
    lines: Vec<usize>,
    root: Cst,
}

impl Document {
    /// The UTF-8 bytes of the text.
    pub closed spec fn bytes_view(&self) -> Seq<u8> {
        self.bytes@
    }

    /// The line-start offsets.
    pub closed spec fn lines_view(&self) -> Seq<usize> {
        self.lines@
    }

    /// The characters of the text.
    pub closed spec fn text_view(&self) -> Seq<char> {
        self.text@
    }

    /// The syntax tree.
    pub closed spec fn root_view(&self) -> Cst {
        self.root
    }

    pub closed spec fn wf(&self) -> bool {
        &&& self.bytes@ == encode_utf8(self.text@)
        &&& self.bytes@.len() + 3 <= usize::MAX
        &&& self.lines@ == line_starts_of(self.bytes@)
        &&& in_bounds(self.root, self.bytes@.len() as int)
        &&& shape_ok(self.root)
    }

    pub proof fn lemma_wf(&self)
        requires
            self.wf(),
        ensures
            lines_wf(self.lines_view(), self.bytes_view().len() as int),
            self.lines_view() == line_starts_of(self.bytes_view()),
            self.bytes_view() == encode_utf8(self.text_view()),
            self.bytes_view().len() + 3 <= usize::MAX,
            in_bounds(self.root_view(), self.bytes_view().len() as int),
            shape_ok(self.root_view()),
    {
        lemma_line_starts_wf(self.bytes@);
    }

    /// The parser's tree `tree` of `text` gives a document.
    pub open spec fn parse_succeeds(text: Seq<char>, tree: Option<&RawNode>) -> bool {
        &&& tree.is_some()
        &&& encode_utf8(text).len() + 3 <= usize::MAX
        &&& raw_ok(*tree.unwrap(), encode_utf8(text).len() as int)
        &&& forall|c: Cst| #[trigger] mirrors(*tree.unwrap(), c) ==> shape_ok(c)
    }

    /// `self` is the document of `text` with the parser's tree `tree`.
    pub open spec fn parsed_from(&self, text: Seq<char>, tree: RawNode) -> bool {
        &&& self.wf()
        &&& self.text_view() == text
        &&& mirrors(tree, self.root_view())
    }

    /// Builds the document of `text` from the parser's tree of it; fails
    /// when the parser gave no tree, when the text is too long to address,
    /// or when the tree cannot be mapped to the syntax model.
    pub fn parse(text: String, tree: Option<&RawNode>) -> (r: Result<Document, ParseError>)
        ensures
            r is Ok <==> Document::parse_succeeds(text@, tree),
            tree.is_none() ==> r == Err::<Document, ParseError>(ParseError::ParserFailed),
            tree.is_some() && encode_utf8(text@).len() + 3 > usize::MAX ==> r == Err::<Document, ParseError>(ParseError::TooLong),
            r matches Ok(d) ==> d.parsed_from(text@, *tree.unwrap()),
            tree.is_some() && encode_utf8(text@).len() + 3 <= usize::MAX
                && raw_ok(*tree.unwrap(), encode_utf8(text@).len() as int)
                && !Document::parse_succeeds(text@, tree)
                ==> r == Err::<Document, ParseError>(ParseError::BadShape),
    {
        let tree = match tree {
            Some(t) => t,
            None => return Err(ParseError::ParserFailed),
        };
        let bytes = vstd::slice::slice_to_vec(text.as_str().as_bytes());
        let len = bytes.len();
        if len > usize::MAX - 3 {
            return Err(ParseError::TooLong);
        }
        let root = build_node(tree, len)?;
        if !check_shape(&root) {
            return Err(ParseError::BadShape);
        }
        proof {
            assert forall|c: Cst| #[trigger] mirrors(*tree, c) implies shape_ok(c) by {
                lemma_mirrors_equiv(*tree, root, c);
                lemma_shape_equiv(root, c);
            }
        }
        let lines = build_line_starts(&bytes);
        Ok(Document { text, bytes, lines, root })
    }

    /// The syntax tree.
    pub fn root(&self) -> (r: &Cst)
        ensures
            r == self.root_view(),
    {
        &self.root
    }

    /// Gives up the document for its syntax tree.
    pub fn into_cst(self) -> (r: Cst)
        ensures
            r == self.root_view(),
    {
        self.root
    }

    /// The line-start offsets.
    pub fn lines(&self) -> (r: &[usize])
        ensures
            r@ == self.lines_view(),
    {
        self.lines.as_slice()
    }

    /// The text's bytes.
    pub fn bytes(&self) -> (r: &[u8])
        ensures
            r@ == self.bytes_view(),
    {
        self.bytes.as_slice()
    }

    /// The text.
    pub fn text(&self) -> (r: &str)
        ensures
            r@ == self.text_view(),
    {
        self.text.as_str()
    }
}

impl Cst {
    /// The syntax tree of `content`, built from the parser's tree of it.
    pub fn parse_source_file(content: String, tree: Option<&RawNode>) -> (r: Result<Cst, ParseError>)
        ensures
            r is Ok <==> Document::parse_succeeds(content@, tree),
            r matches Ok(c) ==> mirrors(*tree.unwrap(), c),
    {
        match Document::parse(content, tree) {
            Ok(d) => Ok(d.into_cst()),
            Err(e) => Err(e),
        }
    }
}

} // verus!
