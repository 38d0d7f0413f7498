use vstd::prelude::*;

use crate::column::{rendered_height, BlockModel, Column};
use crate::sheet::{layout_order, CheatSheet, Environment, Input};
use crate::text::{pad_label, pad_to_width, substitute, substitute_placeholder};

verus! {

/// Width of a column, in terminal cells.
pub const COLUMN_WIDTH: usize = 48;

/// Width of the trigger field of a row, in characters.
pub const LABEL_WIDTH: usize = 16;

/// The terminal rows a column may use, the width it is measured at, and the
/// width of the trigger field.
#[derive(Clone, Copy, Debug)]
pub struct LayoutParams {
    pub max_height: usize,
    pub width: usize,
    pub label_width: usize,
}

impl LayoutParams {
    /// Columns are at least one cell wide.
    pub open spec fn valid(&self) -> bool {
        self.width > 0
    }

    /// Parameters with the usual column and label widths.
    pub fn with_height(max_height: usize) -> (r: LayoutParams)
        ensures
            r.max_height == max_height,
            r.width == COLUMN_WIDTH,
            r.label_width == LABEL_WIDTH,
            r.valid(),
    {
        LayoutParams { max_height, width: COLUMN_WIDTH, label_width: LABEL_WIDTH }
    }
}

/// Whether a column of `height` rows already reaches the last usable row, so
/// that the next row must open a new column.
pub fn reaches_last_row(height: usize, max_height: usize) -> (r: bool)
    ensures
        r == (height as int == max_height as int - 1),
{
    max_height >= 1 && height == max_height - 1
}

/// Whether a column of `height` rows has too little room left for another
/// environment's heading and a row.
pub fn leaves_no_room(height: usize, max_height: usize) -> (r: bool)
    ensures
        r == (height as int >= max_height as int - 5),
{
    max_height < 5 || height >= max_height - 5
}

/// Where packing stands: the columns handed out, the one being filled, and
/// whether no environment has been placed in that one yet.
pub ghost struct PackState {
    pub done: Seq<Seq<BlockModel>>,
    pub current: Seq<BlockModel>,
    pub first: bool,
}

pub open spec fn initial_state() -> PackState {
    PackState { done: Seq::empty(), current: Seq::empty(), first: true }
}

pub open spec fn height_of(c: Seq<BlockModel>, p: LayoutParams) -> int {
    rendered_height(c, p.width as nat) as int
}

/// The row block of input `inp` of environment `env`.
pub open spec fn row_of(env: Environment, inp: Input, p: LayoutParams) -> BlockModel {
    BlockModel::Row(
        pad_label(substitute(inp.input@, env.prefix@), p.label_width as nat),
        inp.description@,
    )
}

/// The environment's heading: a spacer before it unless it opens the column.
pub open spec fn start_env(st: PackState, env: Environment) -> PackState {
    let name = BlockModel::Header(env.environment@);
    PackState {
        done: st.done,
        current: if st.first {
            st.current.push(name).push(BlockModel::Spacer)
        } else {
            st.current.push(BlockModel::Spacer).push(name).push(BlockModel::Spacer)
        },
        first: false,
    }
}

/// A row goes into the current column, unless that column already reaches
/// the last usable row: then the column is handed out and the row opens a new
/// one after two spacers.
pub open spec fn place_row(st: PackState, row: BlockModel, p: LayoutParams) -> PackState {
    if height_of(st.current, p) == p.max_height - 1 {
        PackState {
            done: st.done.push(st.current),
            current: seq![BlockModel::Spacer, BlockModel::Spacer, row],
            first: st.first,
        }
    } else {
        PackState { done: st.done, current: st.current.push(row), first: st.first }
    }
}

/// The state after the first `j` inputs of `env` are placed.
pub open spec fn place_rows(st: PackState, env: Environment, j: nat, p: LayoutParams) -> PackState
    decreases j,
{
    if j == 0 {
        st
    } else {
        place_row(
            place_rows(st, env, (j - 1) as nat, p),
            row_of(env, env.inputs@[j - 1], p),
            p,
        )
    }
}

/// After an environment the column is handed out when little room is left in
/// it, or when no environment follows.
pub open spec fn finish_env(st: PackState, is_last: bool, p: LayoutParams) -> PackState {
    if height_of(st.current, p) >= p.max_height - 5 || is_last {
        PackState { done: st.done.push(st.current), current: Seq::empty(), first: true }
    } else {
        st
    }
}

pub open spec fn place_env(st: PackState, env: Environment, is_last: bool, p: LayoutParams) -> PackState {
    finish_env(
        place_rows(start_env(st, env), env, env.inputs@.len(), p),
        is_last,
        p,
    )
}

/// The state after the first `i` environments are placed.
pub open spec fn place_envs(envs: Seq<Environment>, i: nat, p: LayoutParams) -> PackState
    decreases i,
{
    if i == 0 {
        initial_state()
    } else {
        place_env(place_envs(envs, (i - 1) as nat, p), envs[i - 1], i == envs.len(), p)
    }
}

/// The columns of `envs`, in order: every column handed out, and the last one
/// if anything is left in it. No environments give no columns.
pub open spec fn packed(envs: Seq<Environment>, p: LayoutParams) -> Seq<Seq<BlockModel>> {
    let st = place_envs(envs, envs.len(), p);
    if st.current.len() > 0 {
        st.done.push(st.current)
    } else {
        st.done
    }
}

pub open spec fn columns_view(cs: Seq<Column>) -> Seq<Seq<BlockModel>> {
    cs.map_values(|c: Column| c@)
}

/// Packs `envs`, in the order given, into columns of at most `p.max_height`
/// terminal rows.
pub fn pack_columns(envs: &Vec<Environment>, p: LayoutParams) -> (r: Vec<Column>)
    requires
        p.valid(),
    ensures
        columns_view(r@) == packed(envs@, p),
        forall|i: int| 0 <= i < r@.len() ==> (#[trigger] r@[i]).wf(),
{
    let mut done: Vec<Column> = Vec::new();
    let mut current = Column::new();
    let mut first = true;
    let n = envs.len();
    let mut i: usize = 0;
    assert(columns_view(done@) =~= Seq::<Seq<BlockModel>>::empty());
    while i < n
        invariant
            p.valid(),
            n == envs@.len(),
            i <= n,
            current.wf(),
            forall|k: int| 0 <= k < done@.len() ==> (#[trigger] done@[k]).wf(),
            (PackState { done: columns_view(done@), current: current@, first }) == place_envs(
                envs@,
                i as nat,
                p,
            ),
        decreases n - i,
    {
        let env = &envs[i];
        let ghost st0 = place_envs(envs@, i as nat, p);
        if !first {
            current.push_spacer();
        }
        current.push_header(env.environment.clone());
        current.push_spacer();
        first = false;
        let ghost st1 = start_env(st0, *env);
        let m = env.inputs.len();
        let mut j: usize = 0;
        while j < m
            invariant
                p.valid(),
                m == env.inputs@.len(),
                j <= m,
                current.wf(),
                forall|k: int| 0 <= k < done@.len() ==> (#[trigger] done@[k]).wf(),
                (PackState { done: columns_view(done@), current: current@, first }) == place_rows(
                    st1,
                    *env,
                    j as nat,
                    p,
                ),
            decreases m - j,
        {
            let h = current.height(p.width);
            if reaches_last_row(h, p.max_height) {
                let ghost old_done = done@;
                done.push(current);
                assert(columns_view(done@) =~= columns_view(old_done).push(current@));
                current = Column::new();
                current.push_spacer();
                current.push_spacer();
            }
            let input = &env.inputs[j];
            let trigger = substitute_placeholder(input.input.as_str(), env.prefix.as_str());
            let label = pad_to_width(trigger.as_str(), p.label_width);
            current.push_row(label, input.description.clone());
            proof {
                let pr = place_rows(st1, *env, j as nat, p);
                if height_of(pr.current, p) == p.max_height - 1 {
                    assert(current@ =~= seq![
                        BlockModel::Spacer,
                        BlockModel::Spacer,
                        row_of(*env, env.inputs@[j as int], p),
                    ]);
                }
            }
            j = j + 1;
        }
        let h = current.height(p.width);
        if leaves_no_room(h, p.max_height) || i + 1 == n {
            let ghost old_done = done@;
            done.push(current);
            assert(columns_view(done@) =~= columns_view(old_done).push(current@));
            current = Column::new();
            first = true;
        }
        i = i + 1;
    }
    if current.len() > 0 {
        let ghost old_done = done@;
        done.push(current);
        assert(columns_view(done@) =~= columns_view(old_done).push(current@));
    }
    done
}

/// Sorts the sheet for layout, then packs it.
pub fn layout_sheet(sheet: CheatSheet, p: LayoutParams) -> (r: Vec<Column>)
    requires
        p.valid(),
    ensures
        columns_view(r@) == packed(layout_order(sheet.environments@), p),
        forall|i: int| 0 <= i < r@.len() ==> (#[trigger] r@[i]).wf(),
{
    let ordered = sheet.ordered_for_layout();
    pack_columns(&ordered.environments, p)
}

} // verus!
