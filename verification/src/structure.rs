//! Types to represent the HCL structural sub-language: bodies, attributes and blocks.
use vstd::prelude::*;
use crate::expr::{ExprV, Expression};
use crate::ident::Identifier;

verus! {

/// Represents an HCL config file body: zero or more attributes and blocks.
#[derive(Debug, PartialEq, Eq)]
pub struct Body(pub Vec<Structure>);

/// Represents an HCL structure: an attribute or a block.
#[derive(Debug, PartialEq, Eq)]
pub enum Structure {
    /// Represents an HCL attribute.
    Attribute(Attribute),
    /// Represents an HCL block.
    Block(Block),
}

/// Represents an HCL attribute which consists of an attribute key and a value expression.
#[derive(Debug, PartialEq, Eq)]
pub struct Attribute {
    /// The HCL attribute's key.
    pub key: Identifier,
    /// The value expression of the HCL attribute.
    pub expr: Expression,
}

/// Represents an HCL block which consists of a block identifier, zero or more block labels and
/// a block body.
#[derive(Debug, PartialEq, Eq)]
pub struct Block {
    /// The block identifier.
    pub identifier: Identifier,
    /// Zero or more block labels.
    pub labels: Vec<BlockLabel>,
    /// Represents the `Block`'s body.
    pub body: Body,
}

/// Represents an HCL block label: a quoted string literal or a bare identifier.
#[derive(Debug, PartialEq, Eq)]
pub enum BlockLabel {
    /// A bare HCL block label.
    Identifier(Identifier),
    /// A quoted string literal.
    String(String),
}

/// The content of a [`Structure`].
pub enum StructureV {
    Attribute(Seq<char>, ExprV),
    Block(Seq<char>, Seq<LabelV>, Seq<StructureV>),
}

/// The content of a [`BlockLabel`].
pub enum LabelV {
    Ident(Seq<char>),
    Str(Seq<char>),
}

/// The content of a block label.
pub open spec fn label_view(l: BlockLabel) -> LabelV {
    match l {
        BlockLabel::Identifier(i) => LabelV::Ident(i@),
        BlockLabel::String(s) => LabelV::Str(s@),
    }
}

/// The contents of a sequence of block labels.
pub open spec fn labels_view(s: Seq<BlockLabel>) -> Seq<LabelV> {
    s.map_values(|l: BlockLabel| label_view(l))
}

/// The content of a structure.
pub open spec fn structure_view(s: Structure) -> StructureV
    decreases s,
{
    match s {
        Structure::Attribute(a) => StructureV::Attribute(a.key@, a.expr@),
        Structure::Block(b) => StructureV::Block(
            b.identifier@,
            labels_view(b.labels@),
            structures_view(b.body.0@),
        ),
    }
}

/// The contents of a sequence of structures.
pub open spec fn structures_view(s: Seq<Structure>) -> Seq<StructureV>
    decreases s,
{
    if s.len() == 0 {
        seq![]
    } else {
        structures_view(s.drop_last()).push(structure_view(s.last()))
    }
}

impl View for Structure {
    type V = StructureV;

    open spec fn view(&self) -> StructureV {
        structure_view(*self)
    }
}

impl View for Body {
    type V = Seq<StructureV>;

    open spec fn view(&self) -> Seq<StructureV> {
        structures_view(self.0@)
    }
}

impl View for BlockLabel {
    type V = LabelV;

    open spec fn view(&self) -> LabelV {
        label_view(*self)
    }
}

/// The length of the content of a sequence of structures.
pub proof fn lemma_structures_view_len(s: Seq<Structure>)
    ensures
        structures_view(s).len() == s.len(),
        forall|i: int| 0 <= i < s.len() ==> structures_view(s)[i] == structure_view(#[trigger] s[i]),
    decreases s.len(),
{
    if s.len() > 0 {
        lemma_structures_view_len(s.drop_last());
        assert forall|i: int| 0 <= i < s.len() implies structures_view(s)[i] == structure_view(
            #[trigger] s[i],
        ) by {
            if i < s.len() - 1 {
                assert(s.drop_last()[i] == s[i]);
            }
        }
    }
}

impl Attribute {
    /// Creates a new `Attribute` from an attribute key and an attribute value expression.
    pub fn new(key: Identifier, expr: Expression) -> (r: Attribute)
        ensures
            r.key == key,
            r.expr == expr,
    {
        Attribute { key, expr }
    }

    /// Returns a reference to the attribute key.
    pub fn key(&self) -> (r: &str)
        ensures
            r@ == self.key@,
    {
        self.key.as_str()
    }

    /// Returns a reference to the attribute value expression.
    pub fn expr(&self) -> (r: &Expression)
        ensures
            r == self.expr,
    {
        &self.expr
    }
}

impl From<String> for BlockLabel {
    /// A string becomes a quoted string label.
    fn from(v: String) -> (r: BlockLabel) {
        BlockLabel::String(v)
    }
}

impl vstd::std_specs::convert::FromSpecImpl<String> for BlockLabel {
    open spec fn obeys_from_spec() -> bool {
        true
    }

    open spec fn from_spec(v: String) -> BlockLabel {
        BlockLabel::String(v)
    }
}

impl BlockLabel {
    /// Creates a new bare `BlockLabel` identifier.
    pub fn identifier(identifier: Identifier) -> (r: BlockLabel)
        ensures
            r == BlockLabel::Identifier(identifier),
    {
        BlockLabel::Identifier(identifier)
    }

    /// Creates a new quoted string `BlockLabel`.
    pub fn string(string: String) -> (r: BlockLabel)
        ensures
            r == BlockLabel::String(string),
    {
        BlockLabel::String(string)
    }

    /// Consumes `self` and returns the `String` wrapped by the `BlockLabel`.
    pub fn into_inner(self) -> (r: String)
        ensures
            r@ == match self@ {
                LabelV::Ident(s) => s,
                LabelV::Str(s) => s,
            },
    {
        match self {
            BlockLabel::Identifier(ident) => ident.into_inner(),
            BlockLabel::String(string) => string,
        }
    }
}

impl Block {
    /// Creates a new `Block` from a block identifier, block labels and a block body.
    pub fn new(identifier: Identifier, labels: Vec<BlockLabel>, body: Body) -> (r: Block)
        ensures
            r.identifier == identifier,
            r.labels == labels,
            r.body == body,
    {
        Block { identifier, labels, body }
    }

    /// Creates a new [`BlockBuilder`] to start building a new `Block` with the provided
    /// identifier.
    pub fn builder(identifier: Identifier) -> (r: BlockBuilder)
        ensures
            r.identifier == identifier,
            r.labels@.len() == 0,
            r.body.structures@.len() == 0,
    {
        BlockBuilder::new(identifier)
    }

    /// Returns a reference to the block's identifier.
    pub fn identifier(&self) -> (r: &str)
        ensures
            r@ == self.identifier@,
    {
        self.identifier.as_str()
    }

    /// Returns a reference to the block's labels.
    pub fn labels(&self) -> (r: &[BlockLabel])
        ensures
            r@ == self.labels@,
    {
        self.labels.as_slice()
    }

    /// Returns a reference to the block's body.
    pub fn body(&self) -> (r: &Body)
        ensures
            r == self.body,
    {
        &self.body
    }
}

impl Structure {
    /// Returns `true` if the structure represents an [`Attribute`].
    pub fn is_attribute(&self) -> (r: bool)
        ensures
            r == (self is Attribute),
    {
        matches!(self, Structure::Attribute(_))
    }

    /// Returns `true` if the structure represents a [`Block`].
    pub fn is_block(&self) -> (r: bool)
        ensures
            r == (self is Block),
    {
        matches!(self, Structure::Block(_))
    }

    /// If the `Structure` is an Attribute, returns a reference to the `Attribute`.
    pub fn as_attribute(&self) -> (r: Option<&Attribute>)
        ensures
            match self {
                Structure::Attribute(a) => r == Some(a),
                Structure::Block(_) => r is None,
            },
    {
        match self {
            Structure::Attribute(attr) => Some(attr),
            Structure::Block(_) => None,
        }
    }

    /// If the `Structure` is an `Attribute`, returns a mutable reference to it, otherwise `None`.
    pub fn as_attribute_mut(&mut self) -> (r: Option<&mut Attribute>)
        ensures
            match *old(self) {
                Structure::Attribute(a) => r matches Some(x) && *x == a && *final(self)
                    == Structure::Attribute(*final(x)),
                Structure::Block(_) => r is None && *final(self) == *old(self),
            },
    {
        match self {
            Structure::Attribute(attr) => Some(attr),
            Structure::Block(_) => None,
        }
    }

    /// If the `Structure` is a `Block`, returns a mutable reference to it, otherwise `None`.
    pub fn as_block_mut(&mut self) -> (r: Option<&mut Block>)
        ensures
            match *old(self) {
                Structure::Block(b) => r matches Some(x) && *x == b && *final(self)
                    == Structure::Block(*final(x)),
                Structure::Attribute(_) => r is None && *final(self) == *old(self),
            },
    {
        match self {
            Structure::Block(block) => Some(block),
            Structure::Attribute(_) => None,
        }
    }

    /// If the `Structure` is a `Block`, returns a reference to it, otherwise `None`.
    pub fn as_block(&self) -> (r: Option<&Block>)
        ensures
            match self {
                Structure::Block(b) => r == Some(b),
                Structure::Attribute(_) => r is None,
            },
    {
        match self {
            Structure::Block(block) => Some(block),
            Structure::Attribute(_) => None,
        }
    }
}

/// The attributes among the structures `s`, in order.
pub open spec fn attributes_of(s: Seq<Structure>) -> Seq<Attribute>
    decreases s.len(),
{
    if s.len() == 0 {
        seq![]
    } else {
        match s.last() {
            Structure::Attribute(a) => attributes_of(s.drop_last()).push(a),
            Structure::Block(_) => attributes_of(s.drop_last()),
        }
    }
}

/// The blocks among the structures `s`, in order.
pub open spec fn blocks_of(s: Seq<Structure>) -> Seq<Block>
    decreases s.len(),
{
    if s.len() == 0 {
        seq![]
    } else {
        match s.last() {
            Structure::Block(b) => blocks_of(s.drop_last()).push(b),
            Structure::Attribute(_) => blocks_of(s.drop_last()),
        }
    }
}

/// Attributes wrapped as structures.
pub open spec fn attribute_structures(a: Seq<Attribute>) -> Seq<Structure> {
    a.map_values(|x: Attribute| Structure::Attribute(x))
}

/// Blocks wrapped as structures.
pub open spec fn block_structures(b: Seq<Block>) -> Seq<Structure> {
    b.map_values(|x: Block| Structure::Block(x))
}

impl Body {
    /// Creates an empty body.
    pub fn new() -> (r: Body)
        ensures
            r.0@.len() == 0,
    {
        Body(Vec::new())
    }

    /// Consumes `self` and returns the wrapped `Vec<Structure>`.
    pub fn into_inner(self) -> (r: Vec<Structure>)
        ensures
            r == self.0,
    {
        self.0
    }

    /// Creates a new [`BodyBuilder`] to start building a new `Body`.
    pub fn builder() -> (r: BodyBuilder)
        ensures
            r.structures@.len() == 0,
    {
        BodyBuilder { structures: Vec::new() }
    }

    /// The attributes of the body, in order, leaving out the blocks.
    pub fn attributes(&self) -> (r: Vec<&Attribute>)
        ensures
            r@.len() == attributes_of(self.0@).len(),
            forall|i: int| 0 <= i < r@.len() ==> *r@[i] == attributes_of(self.0@)[i],
    {
        let mut out: Vec<&Attribute> = Vec::new();
        let mut k: usize = 0;
        while k < self.0.len()
            invariant
                k <= self.0@.len(),
                out@.len() == attributes_of(self.0@.subrange(0, k as int)).len(),
                forall|i: int| 0 <= i < out@.len() ==> *out@[i] == attributes_of(
                    self.0@.subrange(0, k as int),
                )[i],
            decreases self.0@.len() - k,
        {
            assert(self.0@.subrange(0, k + 1).drop_last() =~= self.0@.subrange(0, k as int));
            assert(self.0@.subrange(0, k + 1).last() == self.0@[k as int]);
            match &self.0[k] {
                Structure::Attribute(a) => out.push(a),
                Structure::Block(_) => {},
            }
            k += 1;
        }
        assert(self.0@.subrange(0, self.0@.len() as int) =~= self.0@);
        out
    }

    /// The blocks of the body, in order, leaving out the attributes.
    pub fn blocks(&self) -> (r: Vec<&Block>)
        ensures
            r@.len() == blocks_of(self.0@).len(),
            forall|i: int| 0 <= i < r@.len() ==> *r@[i] == blocks_of(self.0@)[i],
    {
        let mut out: Vec<&Block> = Vec::new();
        let mut k: usize = 0;
        while k < self.0.len()
            invariant
                k <= self.0@.len(),
                out@.len() == blocks_of(self.0@.subrange(0, k as int)).len(),
                forall|i: int| 0 <= i < out@.len() ==> *out@[i] == blocks_of(
                    self.0@.subrange(0, k as int),
                )[i],
            decreases self.0@.len() - k,
        {
            assert(self.0@.subrange(0, k + 1).drop_last() =~= self.0@.subrange(0, k as int));
            assert(self.0@.subrange(0, k + 1).last() == self.0@[k as int]);
            match &self.0[k] {
                Structure::Block(b) => out.push(b),
                Structure::Attribute(_) => {},
            }
            k += 1;
        }
        assert(self.0@.subrange(0, self.0@.len() as int) =~= self.0@);
        out
    }

    /// Consumes the body and returns its attributes, in order, leaving out the blocks.
    pub fn into_attributes(self) -> (r: Vec<Attribute>)
        ensures
            r@ == attributes_of(self.0@),
    {
        let ghost orig = self.0@;
        let mut rest = self.0;
        let mut out: Vec<Attribute> = Vec::new();
        assert(orig.subrange(0, 0) =~= seq![]);
        assert(orig.subrange(0, orig.len() as int) =~= orig);
        while rest.len() > 0
            invariant
                rest@.len() <= orig.len(),
                rest@ == orig.subrange(orig.len() - rest@.len(), orig.len() as int),
                out@ == attributes_of(orig.subrange(0, orig.len() - rest@.len())),
            decreases rest@.len(),
        {
            let ghost k = orig.len() - rest@.len();
            let x = rest.remove(0);
            assert(x == orig[k]);
            assert(orig.subrange(0, k + 1).drop_last() =~= orig.subrange(0, k));
            assert(orig.subrange(0, k + 1).last() == orig[k]);
            assert(rest@ =~= orig.subrange(k + 1, orig.len() as int));
            match x {
                Structure::Attribute(a) => out.push(a),
                Structure::Block(_) => {},
            }
        }
        out
    }

    /// Consumes the body and returns its blocks, in order, leaving out the attributes.
    pub fn into_blocks(self) -> (r: Vec<Block>)
        ensures
            r@ == blocks_of(self.0@),
    {
        let ghost orig = self.0@;
        let mut rest = self.0;
        let mut out: Vec<Block> = Vec::new();
        assert(orig.subrange(0, 0) =~= seq![]);
        assert(orig.subrange(0, orig.len() as int) =~= orig);
        while rest.len() > 0
            invariant
                rest@.len() <= orig.len(),
                rest@ == orig.subrange(orig.len() - rest@.len(), orig.len() as int),
                out@ == blocks_of(orig.subrange(0, orig.len() - rest@.len())),
            decreases rest@.len(),
        {
            let ghost k = orig.len() - rest@.len();
            let x = rest.remove(0);
            assert(x == orig[k]);
            assert(orig.subrange(0, k + 1).drop_last() =~= orig.subrange(0, k));
            assert(orig.subrange(0, k + 1).last() == orig[k]);
            assert(rest@ =~= orig.subrange(k + 1, orig.len() as int));
            match x {
                Structure::Block(b) => out.push(b),
                Structure::Attribute(_) => {},
            }
        }
        out
    }

    /// The number of structures in the body.
    pub fn len(&self) -> (r: usize)
        ensures
            r == self.0@.len(),
    {
        self.0.len()
    }
}

/// `BodyBuilder` builds a [`Body`] by adding attributes, blocks and structures in order.
#[derive(Debug)]
pub struct BodyBuilder {
    /// The structures added so far.
    pub structures: Vec<Structure>,
}

impl BodyBuilder {
    /// Adds an `Attribute` to the body.
    pub fn add_attribute(self, attr: Attribute) -> (r: BodyBuilder)
        ensures
            r.structures@ == self.structures@.push(Structure::Attribute(attr)),
    {
        self.add_structure(Structure::Attribute(attr))
    }

    /// Adds a `Block` to the body.
    pub fn add_block(self, block: Block) -> (r: BodyBuilder)
        ensures
            r.structures@ == self.structures@.push(Structure::Block(block)),
    {
        self.add_structure(Structure::Block(block))
    }

    /// Adds a `Structure` to the body.
    pub fn add_structure(self, structure: Structure) -> (r: BodyBuilder)
        ensures
            r.structures@ == self.structures@.push(structure),
    {
        let mut structures = self.structures;
        structures.push(structure);
        BodyBuilder { structures }
    }

    /// Adds `Attribute`s to the body, in order.
    pub fn add_attributes(self, attrs: Vec<Attribute>) -> (r: BodyBuilder)
        ensures
            r.structures@ == self.structures@ + attribute_structures(attrs@),
    {
        let ghost orig = attrs@;
        let ghost start = self.structures@;
        let mut out = self.structures;
        let mut rest = attrs;
        assert(orig.subrange(0, orig.len() as int) =~= orig);
        assert(start + attribute_structures(orig.subrange(0, 0)) =~= start);
        while rest.len() > 0
            invariant
                rest@.len() <= orig.len(),
                rest@ == orig.subrange(orig.len() - rest@.len(), orig.len() as int),
                out@ == start + attribute_structures(orig.subrange(0, orig.len() - rest@.len())),
            decreases rest@.len(),
        {
            let ghost k = orig.len() - rest@.len();
            let a = rest.remove(0);
            assert(a == orig[k]);
            assert(rest@ =~= orig.subrange(k + 1, orig.len() as int));
            assert(start + attribute_structures(orig.subrange(0, k + 1)) =~= (start
                + attribute_structures(orig.subrange(0, k))).push(Structure::Attribute(a)));
            out.push(Structure::Attribute(a));
        }
        assert(orig.subrange(0, orig.len() as int) =~= orig);
        BodyBuilder { structures: out }
    }

    /// Adds `Block`s to the body, in order.
    pub fn add_blocks(self, blocks: Vec<Block>) -> (r: BodyBuilder)
        ensures
            r.structures@ == self.structures@ + block_structures(blocks@),
    {
        let ghost orig = blocks@;
        let ghost start = self.structures@;
        let mut out = self.structures;
        let mut rest = blocks;
        assert(orig.subrange(0, orig.len() as int) =~= orig);
        assert(start + block_structures(orig.subrange(0, 0)) =~= start);
        while rest.len() > 0
            invariant
                rest@.len() <= orig.len(),
                rest@ == orig.subrange(orig.len() - rest@.len(), orig.len() as int),
                out@ == start + block_structures(orig.subrange(0, orig.len() - rest@.len())),
            decreases rest@.len(),
        {
            let ghost k = orig.len() - rest@.len();
            let b = rest.remove(0);
            assert(b == orig[k]);
            assert(rest@ =~= orig.subrange(k + 1, orig.len() as int));
            assert(start + block_structures(orig.subrange(0, k + 1)) =~= (start
                + block_structures(orig.subrange(0, k))).push(Structure::Block(b)));
            out.push(Structure::Block(b));
        }
        assert(orig.subrange(0, orig.len() as int) =~= orig);
        BodyBuilder { structures: out }
    }

    /// Adds `Structure`s to the body, in order.
    pub fn add_structures(self, structures: Vec<Structure>) -> (r: BodyBuilder)
        ensures
            r.structures@ == self.structures@ + structures@,
    {
        let mut out = self.structures;
        let mut rest = structures;
        out.append(&mut rest);
        BodyBuilder { structures: out }
    }

    /// Consumes `self` and builds the [`Body`] from the structures added so far.
    pub fn build(self) -> (r: Body)
        ensures
            r.0 == self.structures,
    {
        Body(self.structures)
    }
}

/// `BlockBuilder` builds an HCL [`Block`] by adding labels, attributes and nested blocks.
#[derive(Debug)]
pub struct BlockBuilder {
    /// The block identifier.
    pub identifier: Identifier,
    /// The labels added so far.
    pub labels: Vec<BlockLabel>,
    /// The body built so far.
    pub body: BodyBuilder,
}

impl BlockBuilder {
    /// Creates a new `BlockBuilder` to start building a new [`Block`] with the provided
    /// identifier.
    pub fn new(identifier: Identifier) -> (r: BlockBuilder)
        ensures
            r.identifier == identifier,
            r.labels@.len() == 0,
            r.body.structures@.len() == 0,
    {
        BlockBuilder { identifier, labels: Vec::new(), body: Body::builder() }
    }

    /// Adds a `BlockLabel`.
    pub fn add_label(self, label: BlockLabel) -> (r: BlockBuilder)
        ensures
            r.identifier == self.identifier,
            r.labels@ == self.labels@.push(label),
            r.body == self.body,
    {
        let mut labels = self.labels;
        labels.push(label);
        BlockBuilder { identifier: self.identifier, labels, body: self.body }
    }

    /// Adds an `Attribute` to the block body.
    pub fn add_attribute(self, attr: Attribute) -> (r: BlockBuilder)
        ensures
            r.identifier == self.identifier,
            r.labels == self.labels,
            r.body.structures@ == self.body.structures@.push(Structure::Attribute(attr)),
    {
        BlockBuilder {
            identifier: self.identifier,
            labels: self.labels,
            body: self.body.add_attribute(attr),
        }
    }

    /// Adds another `Block` to the block body.
    pub fn add_block(self, block: Block) -> (r: BlockBuilder)
        ensures
            r.identifier == self.identifier,
            r.labels == self.labels,
            r.body.structures@ == self.body.structures@.push(Structure::Block(block)),
    {
        BlockBuilder {
            identifier: self.identifier,
            labels: self.labels,
            body: self.body.add_block(block),
        }
    }

    /// Adds a `Structure` to the block body.
    pub fn add_structure(self, structure: Structure) -> (r: BlockBuilder)
        ensures
            r.identifier == self.identifier,
            r.labels == self.labels,
            r.body.structures@ == self.body.structures@.push(structure),
    {
        BlockBuilder {
            identifier: self.identifier,
            labels: self.labels,
            body: self.body.add_structure(structure),
        }
    }

    /// Adds `BlockLabel`s, in order.
    pub fn add_labels(self, labels: Vec<BlockLabel>) -> (r: BlockBuilder)
        ensures
            r.identifier == self.identifier,
            r.labels@ == self.labels@ + labels@,
            r.body == self.body,
    {
        let mut all = self.labels;
        let mut rest = labels;
        all.append(&mut rest);
        BlockBuilder { identifier: self.identifier, labels: all, body: self.body }
    }

    /// Adds `Attribute`s to the block body, in order.
    pub fn add_attributes(self, attrs: Vec<Attribute>) -> (r: BlockBuilder)
        ensures
            r.identifier == self.identifier,
            r.labels == self.labels,
            r.body.structures@ == self.body.structures@ + attribute_structures(attrs@),
    {
        BlockBuilder {
            identifier: self.identifier,
            labels: self.labels,
            body: self.body.add_attributes(attrs),
        }
    }

    /// Adds `Block`s to the block body, in order.
    pub fn add_blocks(self, blocks: Vec<Block>) -> (r: BlockBuilder)
        ensures
            r.identifier == self.identifier,
            r.labels == self.labels,
            r.body.structures@ == self.body.structures@ + block_structures(blocks@),
    {
        BlockBuilder {
            identifier: self.identifier,
            labels: self.labels,
            body: self.body.add_blocks(blocks),
        }
    }

    /// Adds `Structure`s to the block body, in order.
    pub fn add_structures(self, structures: Vec<Structure>) -> (r: BlockBuilder)
        ensures
            r.identifier == self.identifier,
            r.labels == self.labels,
            r.body.structures@ == self.body.structures@ + structures@,
    {
        BlockBuilder {
            identifier: self.identifier,
            labels: self.labels,
            body: self.body.add_structures(structures),
        }
    }

    /// Consumes `self` and builds the [`Block`] from the items added via the builder methods.
    pub fn build(self) -> (r: Block)
        ensures
            r.identifier == self.identifier,
            r.labels == self.labels,
            r.body.0 == self.body.structures,
    {
        Block { identifier: self.identifier, labels: self.labels, body: self.body.build() }
    }
}

} // verus!
