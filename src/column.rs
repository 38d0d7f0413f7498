use cursive::views::LinearLayout;
use vstd::prelude::*;

verus! {

#[verifier::external_type_specification]
#[verifier::external_body]
pub struct ExLinearLayout(LinearLayout);

/// What a rendered block stands for.
pub ghost enum BlockModel {
    Spacer,
    Header(Seq<char>),
    Row(Seq<char>, Seq<char>),
}

/// One unit of a column: a blank line, an environment's name, or a command
/// with its padded trigger and its description.
#[derive(Clone, Debug)]
pub enum Block {
    Spacer,
    Header(String),
    Row(String, String),
}

impl View for Block {
    type V = BlockModel;

    open spec fn view(&self) -> BlockModel {
        match self {
            Block::Spacer => BlockModel::Spacer,
            Block::Header(name) => BlockModel::Header(name@),
            Block::Row(label, description) => BlockModel::Row(label@, description@),
        }
    }
}

/// The blocks that a layout shows, from top to bottom.
pub uninterp spec fn layout_blocks(l: LinearLayout) -> Seq<BlockModel>;

/// The number of terminal rows that `blocks`, stacked, take at `width` cells.
pub uninterp spec fn rendered_height(blocks: Seq<BlockModel>, width: nat) -> nat;

/// Relies on LinearLayout::vertical: a vertical layout with no children.
#[verifier::external_body]
fn empty_layout() -> (r: LinearLayout)
    ensures
        layout_blocks(r) == Seq::<BlockModel>::empty(),
{
    LinearLayout::vertical()
}

/// Relies on LinearLayout::add_child: a blank text view goes below the others.
#[verifier::external_body]
fn add_spacer_view(l: &mut LinearLayout)
    ensures
        layout_blocks(*final(l)) == layout_blocks(*old(l)).push(BlockModel::Spacer),
{
    l.add_child(cursive::views::TextView::new("    "));
}

/// Relies on LinearLayout::add_child: a text view with `name` in bold goes
/// below the others.
#[verifier::external_body]
fn add_header_view(l: &mut LinearLayout, name: &str)
    ensures
        layout_blocks(*final(l)) == layout_blocks(*old(l)).push(BlockModel::Header(name@)),
{
    let caption = cursive::utils::markup::StyledString::styled(
        name,
        cursive::style::Style::from(cursive::style::Effect::Bold),
    );
    l.add_child(cursive::views::TextView::new(caption));
}

/// Relies on LinearLayout::add_child: a horizontal layout of `label`, dimmed,
/// and `description` goes below the others.
#[verifier::external_body]
fn add_row_view(l: &mut LinearLayout, label: &str, description: &str)
    ensures
        layout_blocks(*final(l)) == layout_blocks(*old(l)).push(
            BlockModel::Row(label@, description@),
        ),
{
    let combo = cursive::utils::markup::StyledString::styled(
        label,
        cursive::style::Style::from(cursive::style::Effect::Dim),
    );
    let row = LinearLayout::horizontal().child(cursive::views::TextView::new(combo)).child(
        cursive::views::TextView::new(description),
    );
    l.add_child(row);
}

/// Relies on View::required_size of LinearLayout: the rows the layout needs
/// at `width` cells; the children stay as they are. At a width of 0 a text
/// view keeps the rows of its previous measurement, so that width is left out.
#[verifier::external_body]
fn measure_layout(l: &mut LinearLayout, width: usize) -> (r: usize)
    requires
        width > 0,
    ensures
        layout_blocks(*final(l)) == layout_blocks(*old(l)),
        r as nat == rendered_height(layout_blocks(*old(l)), width as nat),
{
    cursive::View::required_size(l, cursive::Vec2::new(width, 10000)).y
}

/// A column under construction: its blocks, and the layout that shows them.
pub struct Column {
    blocks: Vec<Block>,
    layout: LinearLayout,
}

impl View for Column {
    type V = Seq<BlockModel>;

    closed spec fn view(&self) -> Seq<BlockModel> {
        self.blocks@.map_values(|b: Block| b@)
    }
}

impl Column {
    /// The layout shows exactly the column's blocks.
    pub closed spec fn wf(&self) -> bool {
        layout_blocks(self.layout) == self@
    }

    pub fn new() -> (r: Column)
        ensures
            r.wf(),
            r@ == Seq::<BlockModel>::empty(),
    {
        let r = Column { blocks: Vec::new(), layout: empty_layout() };
        assert(r@ =~= Seq::<BlockModel>::empty());
        r
    }

    pub fn len(&self) -> (r: usize)
        ensures
            r == self@.len(),
    {
        self.blocks.len()
    }

    /// The blocks, from top to bottom.
    pub fn blocks(&self) -> (r: &Vec<Block>)
        ensures
            r@.map_values(|b: Block| b@) == self@,
    {
        &self.blocks
    }

    /// The layout that shows the blocks, for rendering.
    pub fn into_layout(self) -> (r: LinearLayout)
        ensures
            self.wf() ==> layout_blocks(r) == self@,
    {
        self.layout
    }

    pub fn push_spacer(&mut self)
        requires
            old(self).wf(),
        ensures
            final(self).wf(),
            final(self)@ == old(self)@.push(BlockModel::Spacer),
    {
        add_spacer_view(&mut self.layout);
        self.blocks.push(Block::Spacer);
        assert(self@ =~= old(self)@.push(BlockModel::Spacer));
    }

    pub fn push_header(&mut self, name: String)
        requires
            old(self).wf(),
        ensures
            final(self).wf(),
            final(self)@ == old(self)@.push(BlockModel::Header(name@)),
    {
        add_header_view(&mut self.layout, name.as_str());
        self.blocks.push(Block::Header(name));
        assert(self@ =~= old(self)@.push(BlockModel::Header(name@)));
    }

    pub fn push_row(&mut self, label: String, description: String)
        requires
            old(self).wf(),
        ensures
            final(self).wf(),
            final(self)@ == old(self)@.push(BlockModel::Row(label@, description@)),
    {
        add_row_view(&mut self.layout, label.as_str(), description.as_str());
        self.blocks.push(Block::Row(label, description));
        assert(self@ =~= old(self)@.push(BlockModel::Row(label@, description@)));
    }

    /// The rows the column takes on a terminal, at `width` cells.
    pub fn height(&mut self, width: usize) -> (r: usize)
        requires
            old(self).wf(),
            width > 0,
        ensures
            final(self).wf(),
            final(self)@ == old(self)@,
            r as nat == rendered_height(old(self)@, width as nat),
    {
        measure_layout(&mut self.layout, width)
    }
}

} // verus!
