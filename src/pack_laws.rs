use vstd::prelude::*;

use crate::column::{rendered_height, BlockModel};
use crate::packer::{
    height_of, packed, place_envs, place_row, place_rows, row_of, start_env, LayoutParams, PackState,
};
use crate::sheet::{layout_order, Environment};

verus! {

/// The number of row blocks in a column.
pub open spec fn count_rows(c: Seq<BlockModel>) -> nat
    decreases c.len(),
{
    if c.len() == 0 {
        0
    } else {
        count_rows(c.drop_last()) + if c.last() is Row {
            1nat
        } else {
            0nat
        }
    }
}

/// The number of row blocks over all columns.
pub open spec fn total_rows(cs: Seq<Seq<BlockModel>>) -> nat
    decreases cs.len(),
{
    if cs.len() == 0 {
        0
    } else {
        total_rows(cs.drop_last()) + count_rows(cs.last())
    }
}

/// The number of inputs over all environments.
pub open spec fn total_inputs(envs: Seq<Environment>) -> nat
    decreases envs.len(),
{
    if envs.len() == 0 {
        0
    } else {
        total_inputs(envs.drop_last()) + envs.last().inputs@.len()
    }
}

pub open spec fn state_rows(st: PackState) -> nat {
    total_rows(st.done) + count_rows(st.current)
}

proof fn lemma_count_rows_push(c: Seq<BlockModel>, b: BlockModel)
    ensures
        count_rows(c.push(b)) == count_rows(c) + if b is Row {
            1nat
        } else {
            0nat
        },
{
    assert(c.push(b).drop_last() =~= c);
}

proof fn lemma_total_rows_push(cs: Seq<Seq<BlockModel>>, c: Seq<BlockModel>)
    ensures
        total_rows(cs.push(c)) == total_rows(cs) + count_rows(c),
{
    assert(cs.push(c).drop_last() =~= cs);
}

proof fn lemma_place_rows_rows(st: PackState, env: Environment, j: nat, p: LayoutParams)
    requires
        j <= env.inputs@.len(),
    ensures
        state_rows(place_rows(st, env, j, p)) == state_rows(st) + j,
    decreases j,
{
    if j > 0 {
        lemma_place_rows_rows(st, env, (j - 1) as nat, p);
        let pr = place_rows(st, env, (j - 1) as nat, p);
        let row = row_of(env, env.inputs@[j - 1], p);
        if height_of(pr.current, p) == p.max_height - 1 {
            lemma_total_rows_push(pr.done, pr.current);
            let e = Seq::<BlockModel>::empty();
            assert(seq![BlockModel::Spacer, BlockModel::Spacer, row] =~= e.push(
                BlockModel::Spacer,
            ).push(BlockModel::Spacer).push(row));
            lemma_count_rows_push(e, BlockModel::Spacer);
            lemma_count_rows_push(e.push(BlockModel::Spacer), BlockModel::Spacer);
            lemma_count_rows_push(e.push(BlockModel::Spacer).push(BlockModel::Spacer), row);
        } else {
            lemma_count_rows_push(pr.current, row);
        }
    }
}

proof fn lemma_place_envs_rows(envs: Seq<Environment>, i: nat, p: LayoutParams)
    requires
        i <= envs.len(),
    ensures
        state_rows(place_envs(envs, i, p)) == total_inputs(envs.subrange(0, i as int)),
    decreases i,
{
    if i == 0 {
        assert(envs.subrange(0, 0).len() == 0);
    } else {
        lemma_place_envs_rows(envs, (i - 1) as nat, p);
        let st0 = place_envs(envs, (i - 1) as nat, p);
        let env = envs[i - 1];
        let st1 = start_env(st0, env);
        let name = BlockModel::Header(env.environment@);
        if st0.first {
            lemma_count_rows_push(st0.current, name);
            lemma_count_rows_push(st0.current.push(name), BlockModel::Spacer);
        } else {
            lemma_count_rows_push(st0.current, BlockModel::Spacer);
            lemma_count_rows_push(st0.current.push(BlockModel::Spacer), name);
            lemma_count_rows_push(
                st0.current.push(BlockModel::Spacer).push(name),
                BlockModel::Spacer,
            );
        }
        lemma_place_rows_rows(st1, env, env.inputs@.len(), p);
        let st2 = place_rows(st1, env, env.inputs@.len(), p);
        lemma_total_rows_push(st2.done, st2.current);
        assert(envs.subrange(0, i as int).drop_last() =~= envs.subrange(0, i - 1));
    }
}

/// Packing neither drops nor repeats a row: the columns hold one row block for
/// each input of each environment.
pub proof fn lemma_packing_keeps_every_row(envs: Seq<Environment>, p: LayoutParams)
    ensures
        total_rows(packed(envs, p)) == total_inputs(envs),
{
    lemma_place_envs_rows(envs, envs.len(), p);
    assert(envs.subrange(0, envs.len() as int) =~= envs);
    let st = place_envs(envs, envs.len(), p);
    if st.current.len() > 0 {
        lemma_total_rows_push(st.done, st.current);
    } else {
        assert(count_rows(st.current) == 0);
    }
}

/// The row blocks of a column, top to bottom.
pub open spec fn row_blocks(c: Seq<BlockModel>) -> Seq<BlockModel>
    decreases c.len(),
{
    if c.len() == 0 {
        Seq::empty()
    } else {
        row_blocks(c.drop_last()) + if c.last() is Row {
            seq![c.last()]
        } else {
            Seq::empty()
        }
    }
}

/// The row blocks over all columns, column after column.
pub open spec fn all_row_blocks(cs: Seq<Seq<BlockModel>>) -> Seq<BlockModel>
    decreases cs.len(),
{
    if cs.len() == 0 {
        Seq::empty()
    } else {
        all_row_blocks(cs.drop_last()) + row_blocks(cs.last())
    }
}

/// The rows of the first `j` inputs of `env`, each built with `env`'s prefix.
pub open spec fn env_rows(env: Environment, j: nat, p: LayoutParams) -> Seq<BlockModel> {
    Seq::new(j, |k: int| row_of(env, env.inputs@[k], p))
}

/// The rows of all inputs, environment after environment.
pub open spec fn sheet_rows(envs: Seq<Environment>, p: LayoutParams) -> Seq<BlockModel>
    decreases envs.len(),
{
    if envs.len() == 0 {
        Seq::empty()
    } else {
        sheet_rows(envs.drop_last(), p) + env_rows(envs.last(), envs.last().inputs@.len(), p)
    }
}

pub open spec fn state_row_blocks(st: PackState) -> Seq<BlockModel> {
    all_row_blocks(st.done) + row_blocks(st.current)
}

proof fn lemma_row_blocks_push(c: Seq<BlockModel>, b: BlockModel)
    ensures
        row_blocks(c.push(b)) == row_blocks(c) + if b is Row {
            seq![b]
        } else {
            Seq::empty()
        },
{
    assert(c.push(b).drop_last() =~= c);
}

proof fn lemma_all_row_blocks_push(cs: Seq<Seq<BlockModel>>, c: Seq<BlockModel>)
    ensures
        all_row_blocks(cs.push(c)) == all_row_blocks(cs) + row_blocks(c),
{
    assert(cs.push(c).drop_last() =~= cs);
}

proof fn lemma_place_rows_order(st: PackState, env: Environment, j: nat, p: LayoutParams)
    requires
        j <= env.inputs@.len(),
    ensures
        state_row_blocks(place_rows(st, env, j, p)) == state_row_blocks(st) + env_rows(env, j, p),
    decreases j,
{
    let e = Seq::<BlockModel>::empty();
    if j == 0 {
        assert(env_rows(env, 0, p) =~= e);
        assert(state_row_blocks(st) + e =~= state_row_blocks(st));
    } else {
        lemma_place_rows_order(st, env, (j - 1) as nat, p);
        let pr = place_rows(st, env, (j - 1) as nat, p);
        let row = row_of(env, env.inputs@[j - 1], p);
        assert(env_rows(env, j, p) =~= env_rows(env, (j - 1) as nat, p).push(row));
        if height_of(pr.current, p) == p.max_height - 1 {
            lemma_all_row_blocks_push(pr.done, pr.current);
            assert(seq![BlockModel::Spacer, BlockModel::Spacer, row] =~= e.push(
                BlockModel::Spacer,
            ).push(BlockModel::Spacer).push(row));
            lemma_row_blocks_push(e, BlockModel::Spacer);
            lemma_row_blocks_push(e.push(BlockModel::Spacer), BlockModel::Spacer);
            lemma_row_blocks_push(e.push(BlockModel::Spacer).push(BlockModel::Spacer), row);
            assert(row_blocks(e) =~= e);
            assert(row_blocks(seq![BlockModel::Spacer, BlockModel::Spacer, row]) =~= seq![row]);
            assert(state_row_blocks(place_row(pr, row, p)) =~= state_row_blocks(pr)
                + seq![row]);
        } else {
            lemma_row_blocks_push(pr.current, row);
            assert(state_row_blocks(place_row(pr, row, p)) =~= state_row_blocks(pr)
                + seq![row]);
        }
        assert(state_row_blocks(st) + env_rows(env, j, p) =~= (state_row_blocks(st) + env_rows(
            env,
            (j - 1) as nat,
            p,
        )) + seq![row]);
    }
}

proof fn lemma_place_envs_order(envs: Seq<Environment>, i: nat, p: LayoutParams)
    requires
        i <= envs.len(),
    ensures
        state_row_blocks(place_envs(envs, i, p)) == sheet_rows(envs.subrange(0, i as int), p),
    decreases i,
{
    let e = Seq::<BlockModel>::empty();
    if i == 0 {
        assert(envs.subrange(0, 0).len() == 0);
        assert(state_row_blocks(place_envs(envs, 0, p)) =~= e);
    } else {
        lemma_place_envs_order(envs, (i - 1) as nat, p);
        let st0 = place_envs(envs, (i - 1) as nat, p);
        let env = envs[i - 1];
        let st1 = start_env(st0, env);
        let name = BlockModel::Header(env.environment@);
        if st0.first {
            lemma_row_blocks_push(st0.current, name);
            lemma_row_blocks_push(st0.current.push(name), BlockModel::Spacer);
        } else {
            lemma_row_blocks_push(st0.current, BlockModel::Spacer);
            lemma_row_blocks_push(st0.current.push(BlockModel::Spacer), name);
            lemma_row_blocks_push(
                st0.current.push(BlockModel::Spacer).push(name),
                BlockModel::Spacer,
            );
        }
        assert(row_blocks(st1.current) =~= row_blocks(st0.current));
        lemma_place_rows_order(st1, env, env.inputs@.len(), p);
        let st2 = place_rows(st1, env, env.inputs@.len(), p);
        lemma_all_row_blocks_push(st2.done, st2.current);
        assert(row_blocks(e) =~= e);
        assert(state_row_blocks(PackState { done: st2.done.push(st2.current), current: e, first: true })
            =~= state_row_blocks(st2));
        let sub = envs.subrange(0, i as int);
        assert(sub.drop_last() =~= envs.subrange(0, i - 1));
        assert(sub.last() == env);
    }
}

/// The row blocks of the columns are, in order, one for each input of each
/// environment, its trigger with every placeholder replaced by the prefix of
/// the environment it belongs to.
pub proof fn lemma_rows_follow_inputs(envs: Seq<Environment>, p: LayoutParams)
    ensures
        all_row_blocks(packed(envs, p)) == sheet_rows(envs, p),
{
    lemma_place_envs_order(envs, envs.len(), p);
    assert(envs.subrange(0, envs.len() as int) =~= envs);
    let st = place_envs(envs, envs.len(), p);
    if st.current.len() > 0 {
        lemma_all_row_blocks_push(st.done, st.current);
    } else {
        assert(row_blocks(st.current) =~= Seq::<BlockModel>::empty());
        assert(state_row_blocks(st) =~= all_row_blocks(st.done));
    }
}

/// The headings of a column, top to bottom.
pub open spec fn header_blocks(c: Seq<BlockModel>) -> Seq<BlockModel>
    decreases c.len(),
{
    if c.len() == 0 {
        Seq::empty()
    } else {
        header_blocks(c.drop_last()) + if c.last() is Header {
            seq![c.last()]
        } else {
            Seq::empty()
        }
    }
}

/// The headings over all columns, column after column.
pub open spec fn all_header_blocks(cs: Seq<Seq<BlockModel>>) -> Seq<BlockModel>
    decreases cs.len(),
{
    if cs.len() == 0 {
        Seq::empty()
    } else {
        all_header_blocks(cs.drop_last()) + header_blocks(cs.last())
    }
}

/// One heading per environment, in the order of `envs`.
pub open spec fn env_headers(envs: Seq<Environment>) -> Seq<BlockModel> {
    envs.map_values(|e: Environment| BlockModel::Header(e.environment@))
}

pub open spec fn state_header_blocks(st: PackState) -> Seq<BlockModel> {
    all_header_blocks(st.done) + header_blocks(st.current)
}

proof fn lemma_header_blocks_push(c: Seq<BlockModel>, b: BlockModel)
    ensures
        header_blocks(c.push(b)) == header_blocks(c) + if b is Header {
            seq![b]
        } else {
            Seq::empty()
        },
{
    assert(c.push(b).drop_last() =~= c);
}

proof fn lemma_all_header_blocks_push(cs: Seq<Seq<BlockModel>>, c: Seq<BlockModel>)
    ensures
        all_header_blocks(cs.push(c)) == all_header_blocks(cs) + header_blocks(c),
{
    assert(cs.push(c).drop_last() =~= cs);
}

proof fn lemma_place_rows_headers(st: PackState, env: Environment, j: nat, p: LayoutParams)
    requires
        j <= env.inputs@.len(),
    ensures
        state_header_blocks(place_rows(st, env, j, p)) == state_header_blocks(st),
    decreases j,
{
    if j > 0 {
        lemma_place_rows_headers(st, env, (j - 1) as nat, p);
        let pr = place_rows(st, env, (j - 1) as nat, p);
        let row = row_of(env, env.inputs@[j - 1], p);
        let e = Seq::<BlockModel>::empty();
        if height_of(pr.current, p) == p.max_height - 1 {
            lemma_all_header_blocks_push(pr.done, pr.current);
            assert(seq![BlockModel::Spacer, BlockModel::Spacer, row] =~= e.push(
                BlockModel::Spacer,
            ).push(BlockModel::Spacer).push(row));
            lemma_header_blocks_push(e, BlockModel::Spacer);
            lemma_header_blocks_push(e.push(BlockModel::Spacer), BlockModel::Spacer);
            lemma_header_blocks_push(e.push(BlockModel::Spacer).push(BlockModel::Spacer), row);
            assert(header_blocks(e) =~= e);
            assert(header_blocks(seq![BlockModel::Spacer, BlockModel::Spacer, row]) =~= e);
            assert(state_header_blocks(place_row(pr, row, p)) =~= state_header_blocks(pr));
        } else {
            lemma_header_blocks_push(pr.current, row);
            assert(state_header_blocks(place_row(pr, row, p)) =~= state_header_blocks(pr));
        }
    }
}

proof fn lemma_place_envs_headers(envs: Seq<Environment>, i: nat, p: LayoutParams)
    requires
        i <= envs.len(),
    ensures
        state_header_blocks(place_envs(envs, i, p)) == env_headers(envs.subrange(0, i as int)),
    decreases i,
{
    let e = Seq::<BlockModel>::empty();
    if i == 0 {
        assert(env_headers(envs.subrange(0, 0)) =~= e);
        assert(state_header_blocks(place_envs(envs, 0, p)) =~= e);
    } else {
        lemma_place_envs_headers(envs, (i - 1) as nat, p);
        let st0 = place_envs(envs, (i - 1) as nat, p);
        let env = envs[i - 1];
        let st1 = start_env(st0, env);
        let name = BlockModel::Header(env.environment@);
        if st0.first {
            lemma_header_blocks_push(st0.current, name);
            lemma_header_blocks_push(st0.current.push(name), BlockModel::Spacer);
        } else {
            lemma_header_blocks_push(st0.current, BlockModel::Spacer);
            lemma_header_blocks_push(st0.current.push(BlockModel::Spacer), name);
            lemma_header_blocks_push(
                st0.current.push(BlockModel::Spacer).push(name),
                BlockModel::Spacer,
            );
        }
        assert(header_blocks(st1.current) =~= header_blocks(st0.current).push(name));
        lemma_place_rows_headers(st1, env, env.inputs@.len(), p);
        let st2 = place_rows(st1, env, env.inputs@.len(), p);
        lemma_all_header_blocks_push(st2.done, st2.current);
        assert(header_blocks(e) =~= e);
        assert(state_header_blocks(
            PackState { done: st2.done.push(st2.current), current: e, first: true },
        ) =~= state_header_blocks(st2));
        assert(env_headers(envs.subrange(0, i as int)) =~= env_headers(
            envs.subrange(0, i - 1),
        ).push(name));
        assert(state_header_blocks(st1) =~= state_header_blocks(st0).push(name));
    }
}

/// The headings of the columns are, in order, one for each environment in the
/// order it is packed.
pub proof fn lemma_headers_follow_environments(envs: Seq<Environment>, p: LayoutParams)
    ensures
        all_header_blocks(packed(envs, p)) == env_headers(envs),
{
    lemma_place_envs_headers(envs, envs.len(), p);
    assert(envs.subrange(0, envs.len() as int) =~= envs);
    let st = place_envs(envs, envs.len(), p);
    if st.current.len() > 0 {
        lemma_all_header_blocks_push(st.done, st.current);
    } else {
        assert(header_blocks(st.current) =~= Seq::<BlockModel>::empty());
        assert(state_header_blocks(st) =~= all_header_blocks(st.done));
    }
}

/// A sheet laid out shows its environments' headings by descending number of
/// inputs, those with equally many in the order they were written.
pub proof fn lemma_sheet_headers_in_layout_order(envs: Seq<Environment>, p: LayoutParams)
    ensures
        all_header_blocks(packed(layout_order(envs), p)) == env_headers(layout_order(envs)),
{
    lemma_headers_follow_environments(layout_order(envs), p);
}

/// A column opens with an environment's heading, or, where an environment was
/// split because the column before reached its last usable row, with two
/// spacers and a row.
pub open spec fn opens_well(c: Seq<BlockModel>) -> bool {
    ||| c.len() > 0 && c[0] is Header
    ||| c.len() >= 3 && c[0] is Spacer && c[1] is Spacer && c[2] is Row
}

pub open spec fn all_open_well(st: PackState) -> bool {
    &&& forall|k: int| 0 <= k < st.done.len() ==> opens_well(#[trigger] st.done[k])
    &&& st.current.len() == 0 || opens_well(st.current)
}

proof fn lemma_opens_well_push(c: Seq<BlockModel>, b: BlockModel)
    requires
        opens_well(c),
    ensures
        opens_well(c.push(b)),
{
    assert(c.push(b)[0] == c[0]);
    if c.len() >= 3 {
        assert(c.push(b)[1] == c[1] && c.push(b)[2] == c[2]);
    }
}

proof fn lemma_done_push_opens(done: Seq<Seq<BlockModel>>, c: Seq<BlockModel>)
    requires
        forall|k: int| 0 <= k < done.len() ==> opens_well(#[trigger] done[k]),
        opens_well(c),
    ensures
        forall|k: int| 0 <= k < done.push(c).len() ==> opens_well(#[trigger] done.push(c)[k]),
{
    assert forall|k: int| 0 <= k < done.push(c).len() implies opens_well(
        #[trigger] done.push(c)[k],
    ) by {
        if k < done.len() {
            assert(done.push(c)[k] == done[k]);
        }
    }
}

proof fn lemma_place_rows_open(st: PackState, env: Environment, j: nat, p: LayoutParams)
    requires
        j <= env.inputs@.len(),
        all_open_well(st),
        st.current.len() > 0,
    ensures
        all_open_well(place_rows(st, env, j, p)),
        place_rows(st, env, j, p).current.len() > 0,
    decreases j,
{
    if j > 0 {
        lemma_place_rows_open(st, env, (j - 1) as nat, p);
        let pr = place_rows(st, env, (j - 1) as nat, p);
        let row = row_of(env, env.inputs@[j - 1], p);
        if height_of(pr.current, p) == p.max_height - 1 {
            lemma_done_push_opens(pr.done, pr.current);
        } else {
            lemma_opens_well_push(pr.current, row);
        }
    }
}

proof fn lemma_place_envs_open(envs: Seq<Environment>, i: nat, p: LayoutParams)
    requires
        i <= envs.len(),
    ensures
        all_open_well(place_envs(envs, i, p)),
        !place_envs(envs, i, p).first ==> place_envs(envs, i, p).current.len() > 0,
    decreases i,
{
    if i > 0 {
        lemma_place_envs_open(envs, (i - 1) as nat, p);
        let st0 = place_envs(envs, (i - 1) as nat, p);
        let env = envs[i - 1];
        let st1 = start_env(st0, env);
        let name = BlockModel::Header(env.environment@);
        let c = st0.current;
        if c.len() == 0 {
            assert(st0.first);
            assert(st1.current[0] == name);
        } else if st0.first {
            lemma_opens_well_push(c, name);
            lemma_opens_well_push(c.push(name), BlockModel::Spacer);
        } else {
            lemma_opens_well_push(c, BlockModel::Spacer);
            lemma_opens_well_push(c.push(BlockModel::Spacer), name);
            lemma_opens_well_push(c.push(BlockModel::Spacer).push(name), BlockModel::Spacer);
        }
        lemma_place_rows_open(st1, env, env.inputs@.len(), p);
        let st2 = place_rows(st1, env, env.inputs@.len(), p);
        lemma_done_push_opens(st2.done, st2.current);
    }
}

/// Every column opens with a heading, or continues an environment with two
/// spacers and a row and no heading before it; the first column opens with a
/// heading.
pub proof fn lemma_columns_open_well(envs: Seq<Environment>, p: LayoutParams)
    ensures
        forall|k: int| 0 <= k < packed(envs, p).len() ==> opens_well(#[trigger] packed(envs, p)[k]),
        packed(envs, p).len() > 0 ==> packed(envs, p)[0].len() > 0 && packed(envs, p)[0][0] is Header,
{
    lemma_place_envs_open(envs, envs.len(), p);
    let st = place_envs(envs, envs.len(), p);
    if st.current.len() > 0 {
        lemma_done_push_opens(st.done, st.current);
    }
    lemma_first_column_heading(envs, envs.len(), p);
}

proof fn lemma_first_column_heading(envs: Seq<Environment>, i: nat, p: LayoutParams)
    requires
        i <= envs.len(),
    ensures
        ({
            let st = place_envs(envs, i, p);
            &&& st.done.len() > 0 ==> st.done[0].len() > 0 && st.done[0][0] is Header
            &&& st.done.len() == 0 ==> st.current.len() == 0 || st.current[0] is Header
        }),
    decreases i,
{
    if i > 0 {
        lemma_first_column_heading(envs, (i - 1) as nat, p);
        let st0 = place_envs(envs, (i - 1) as nat, p);
        let env = envs[i - 1];
        let st1 = start_env(st0, env);
        lemma_rows_keep_first(st1, env, env.inputs@.len(), p);
    }
}

proof fn lemma_rows_keep_first(st: PackState, env: Environment, j: nat, p: LayoutParams)
    requires
        j <= env.inputs@.len(),
        st.done.len() > 0 ==> st.done[0].len() > 0 && st.done[0][0] is Header,
        st.done.len() == 0 ==> st.current.len() > 0 && st.current[0] is Header,
    ensures
        ({
            let r = place_rows(st, env, j, p);
            &&& r.done.len() > 0 ==> r.done[0].len() > 0 && r.done[0][0] is Header
            &&& r.done.len() == 0 ==> r.current.len() > 0 && r.current[0] is Header
        }),
    decreases j,
{
    if j > 0 {
        lemma_rows_keep_first(st, env, (j - 1) as nat, p);
        let pr = place_rows(st, env, (j - 1) as nat, p);
        let row = row_of(env, env.inputs@[j - 1], p);
        if height_of(pr.current, p) != p.max_height - 1 {
            if pr.current.len() > 0 {
                assert(pr.current.push(row)[0] == pr.current[0]);
            }
        } else if pr.done.len() > 0 {
            assert(pr.done.push(pr.current)[0] == pr.done[0]);
        }
    }
}

/// Each block adds at most one terminal row at `width`: no text wraps.
pub open spec fn blocks_fit_one_row(width: nat) -> bool {
    &&& rendered_height(Seq::empty(), width) == 0
    &&& forall|c: Seq<BlockModel>, b: BlockModel|
        #[trigger] rendered_height(c.push(b), width) <= rendered_height(c, width) + 1
}

pub open spec fn done_fit(st: PackState, p: LayoutParams) -> bool {
    forall|k: int| 0 <= k < st.done.len() ==> height_of(#[trigger] st.done[k], p) <= p.max_height - 1
}

/// Between environments: the column is new, or leaves room for a heading.
pub open spec fn fits_between(st: PackState, p: LayoutParams) -> bool {
    &&& done_fit(st, p)
    &&& (st.first && st.current.len() == 0) || (!st.first && height_of(st.current, p) + 5
        < p.max_height)
}

pub open spec fn fits_within(st: PackState, p: LayoutParams) -> bool {
    &&& done_fit(st, p)
    &&& height_of(st.current, p) <= p.max_height - 1
}

proof fn lemma_done_push(st: PackState, c: Seq<BlockModel>, p: LayoutParams)
    requires
        done_fit(st, p),
        height_of(c, p) <= p.max_height - 1,
    ensures
        forall|k: int|
            0 <= k < st.done.push(c).len() ==> height_of(#[trigger] st.done.push(c)[k], p)
                <= p.max_height - 1,
{
    assert forall|k: int| 0 <= k < st.done.push(c).len() implies height_of(
        #[trigger] st.done.push(c)[k],
        p,
    ) <= p.max_height - 1 by {
        if k < st.done.len() {
            assert(st.done.push(c)[k] == st.done[k]);
        }
    }
}

proof fn lemma_place_rows_fit(st: PackState, env: Environment, j: nat, p: LayoutParams)
    requires
        j <= env.inputs@.len(),
        p.max_height >= 4,
        blocks_fit_one_row(p.width as nat),
        fits_within(st, p),
    ensures
        fits_within(place_rows(st, env, j, p), p),
        place_rows(st, env, j, p).first == st.first,
    decreases j,
{
    if j > 0 {
        lemma_place_rows_fit(st, env, (j - 1) as nat, p);
        let pr = place_rows(st, env, (j - 1) as nat, p);
        let row = row_of(env, env.inputs@[j - 1], p);
        let w = p.width as nat;
        if height_of(pr.current, p) == p.max_height - 1 {
            lemma_done_push(pr, pr.current, p);
            let e = Seq::<BlockModel>::empty();
            assert(seq![BlockModel::Spacer, BlockModel::Spacer, row] =~= e.push(
                BlockModel::Spacer,
            ).push(BlockModel::Spacer).push(row));
            assert(rendered_height(e.push(BlockModel::Spacer), w) <= 1);
            assert(rendered_height(e.push(BlockModel::Spacer).push(BlockModel::Spacer), w) <= 2);
            assert(rendered_height(
                e.push(BlockModel::Spacer).push(BlockModel::Spacer).push(row),
                w,
            ) <= 3);
        } else {
            assert(rendered_height(pr.current.push(row), w) <= rendered_height(pr.current, w)
                + 1);
        }
    }
}

proof fn lemma_place_envs_fit(envs: Seq<Environment>, i: nat, p: LayoutParams)
    requires
        i <= envs.len(),
        p.max_height >= 4,
        blocks_fit_one_row(p.width as nat),
    ensures
        fits_between(place_envs(envs, i, p), p),
    decreases i,
{
    if i > 0 {
        lemma_place_envs_fit(envs, (i - 1) as nat, p);
        let st0 = place_envs(envs, (i - 1) as nat, p);
        let env = envs[i - 1];
        let st1 = start_env(st0, env);
        let name = BlockModel::Header(env.environment@);
        let w = p.width as nat;
        let c = st0.current;
        if st0.first {
            assert(c =~= Seq::<BlockModel>::empty());
            assert(rendered_height(c.push(name), w) <= 1);
            assert(rendered_height(c.push(name).push(BlockModel::Spacer), w) <= 2);
        } else {
            assert(rendered_height(c.push(BlockModel::Spacer), w) <= rendered_height(c, w) + 1);
            assert(rendered_height(c.push(BlockModel::Spacer).push(name), w) <= rendered_height(
                c,
                w,
            ) + 2);
            assert(rendered_height(c.push(BlockModel::Spacer).push(name).push(BlockModel::Spacer), w)
                <= rendered_height(c, w) + 3);
        }
        lemma_place_rows_fit(st1, env, env.inputs@.len(), p);
        let st2 = place_rows(st1, env, env.inputs@.len(), p);
        lemma_done_push(st2, st2.current, p);
    }
}

/// Where no block wraps onto a second terminal row and a heading with one
/// row fits (`max_height >= 4`), no column is taller than `max_height - 1`.
pub proof fn lemma_columns_fit_height(envs: Seq<Environment>, p: LayoutParams)
    requires
        p.max_height >= 4,
        blocks_fit_one_row(p.width as nat),
    ensures
        forall|k: int|
            0 <= k < packed(envs, p).len() ==> rendered_height(
                #[trigger] packed(envs, p)[k],
                p.width as nat,
            ) <= p.max_height - 1,
{
    lemma_place_envs_fit(envs, envs.len(), p);
    let st = place_envs(envs, envs.len(), p);
    if st.current.len() > 0 {
        lemma_done_push(st, st.current, p);
    }
}

} // verus!
