use vstd::prelude::*;
use crate::engine::game_layer::{lowest_active, plan, settle, LayerModel, LayerStrength};
use crate::engine::scene::SceneAction;
use crate::engine::world::GameData;

verus! {

/// The lowest layer that acts is the topmost strong layer: every layer above
/// it is weak, and it is strong itself unless it is the bottom of the stack.
pub proof fn lemma_lowest_active<F>(layers: Seq<LayerModel<F>>)
    ensures
        0 <= lowest_active(layers),
        layers.len() > 0 ==> lowest_active(layers) < layers.len(),
        forall|j: int|
            lowest_active(layers) < j < layers.len() ==> (#[trigger] layers[j]).strength == LayerStrength::Weak,
        lowest_active(layers) > 0 ==> layers[lowest_active(layers)].strength == LayerStrength::Strong,
    decreases layers.len(),
{
    if layers.len() > 0 && layers.last().strength != LayerStrength::Strong {
        let below = layers.drop_last();
        lemma_lowest_active(below);
        assert forall|j: int| lowest_active(layers) < j < layers.len() implies (#[trigger] layers[j]).strength
            == LayerStrength::Weak by {
            if j < below.len() {
                assert(below[j] == layers[j]);
            }
        }
        if lowest_active(layers) > 0 {
            assert(below[lowest_active(below)] == layers[lowest_active(layers)]);
        }
    }
}

/// The hooks of an action fall into three parts: those of the layers above
/// an acting layer, those of that layer, and, unless it is strong, those of
/// the layers below it.
pub proof fn lemma_plan_split<F: Fn(GameData) -> GameData>(
    layers: Seq<LayerModel<F>>,
    action: SceneAction,
    p: int,
)
    requires
        lowest_active(layers) <= p < layers.len(),
    ensures
        plan(layers, action) == plan(layers.skip(p + 1), action) + layers[p].logic.hooks_for(
            action,
            layers[p].started,
        ) + (if layers[p].strength == LayerStrength::Strong {
            Seq::<F>::empty()
        } else {
            plan(layers.take(p), action)
        }),
    decreases layers.len(),
{
    lemma_lowest_active(layers);
    let top = layers.last();
    let below = layers.drop_last();
    let own = layers[p].logic.hooks_for(action, layers[p].started);
    let rest = if layers[p].strength == LayerStrength::Strong {
        Seq::<F>::empty()
    } else {
        plan(layers.take(p), action)
    };
    if p == layers.len() - 1 {
        assert(layers.skip(p + 1).len() == 0);
        assert(below =~= layers.take(p));
        assert(plan(layers.skip(p + 1), action) + own + rest =~= own + rest);
    } else {
        assert(top.strength == LayerStrength::Weak);
        assert(below[p] == layers[p]);
        lemma_plan_split(below, action, p);
        assert(below.take(p) =~= layers.take(p));
        let above = layers.skip(p + 1);
        assert(above.last() == top);
        assert(above.drop_last() =~= below.skip(p + 1));
        let top_hooks = top.logic.hooks_for(action, top.started);
        assert(plan(above, action) == top_hooks + plan(below.skip(p + 1), action));
        assert(plan(layers, action) == top_hooks + plan(below, action));
        assert(top_hooks + (plan(below.skip(p + 1), action) + own + rest) =~= (top_hooks + plan(
            below.skip(p + 1),
            action,
        )) + own + rest);
    }
}

/// The layers below the topmost strong layer are inert: no hook of theirs
/// is called and they stay as they are.
pub proof fn lemma_layers_below_strong_are_inert<F: Fn(GameData) -> GameData>(
    layers: Seq<LayerModel<F>>,
    action: SceneAction,
)
    ensures
        plan(layers, action) == plan(layers.skip(lowest_active(layers)), action),
        forall|j: int| 0 <= j < lowest_active(layers) ==> #[trigger] settle(layers, action)[j] == layers[j],
    decreases layers.len(),
{
    lemma_lowest_active(layers);
    if layers.len() > 0 {
        let low = lowest_active(layers);
        let acting = layers.skip(low);
        if layers.last().strength == LayerStrength::Strong {
            assert(acting.last() == layers.last());
        } else {
            let below = layers.drop_last();
            lemma_layers_below_strong_are_inert(below, action);
            assert(acting.last() == layers.last());
            assert(acting.drop_last() =~= below.skip(low));
        }
    } else {
        assert(layers.skip(0) =~= layers);
    }
}

/// A weak layer on top of a strong one that lies on a third layer: an
/// action calls the hooks of the weak layer, then those of the strong one,
/// and none of the third.
pub proof fn lemma_strong_layer_shields_the_one_below<F: Fn(GameData) -> GameData>(
    bottom: LayerModel<F>,
    middle: LayerModel<F>,
    top: LayerModel<F>,
    action: SceneAction,
)
    requires
        top.strength == LayerStrength::Weak,
        middle.strength == LayerStrength::Strong,
    ensures
        plan(seq![bottom, middle, top], action) == top.logic.hooks_for(action, top.started)
            + middle.logic.hooks_for(action, middle.started),
        settle(seq![bottom, middle, top], action)[0] == bottom,
{
    let layers = seq![bottom, middle, top];
    let two = seq![bottom, middle];
    assert(layers.drop_last() =~= two);
    assert(two.last() == middle);
    assert(layers.last() == top);
    let of_middle = middle.logic.hooks_for(action, middle.started);
    assert(plan(two, action) == of_middle + Seq::<F>::empty());
    assert(of_middle + Seq::<F>::empty() =~= of_middle);
    assert(lowest_active(two) == 1);
    assert(lowest_active(layers) == 1);
}

/// A layer that has not started, such as one just pushed or just put in the
/// place of another, is started by the update that first reaches it:
/// `on_start` is called, and `update` right after it.
pub proof fn lemma_unstarted_layer_starts_before_its_update<F: Fn(GameData) -> GameData>(
    layers: Seq<LayerModel<F>>,
    p: int,
)
    requires
        lowest_active(layers) <= p < layers.len(),
        !layers[p].started,
    ensures
        plan(layers, SceneAction::Update) == plan(layers.skip(p + 1), SceneAction::Update) + seq![
            layers[p].logic.on_start,
            layers[p].logic.update,
        ] + (if layers[p].strength == LayerStrength::Strong {
            Seq::<F>::empty()
        } else {
            plan(layers.take(p), SceneAction::Update)
        }),
        settle(layers, SceneAction::Update)[p].started,
{
    lemma_lowest_active(layers);
    lemma_plan_split(layers, SceneAction::Update, p);
}

/// Putting a layer in the place of another moves no layer: every other
/// position holds what it held.
pub proof fn lemma_replace_keeps_positions<F>(layers: Seq<LayerModel<F>>, p: int, fresh: LayerModel<F>, j: int)
    requires
        0 <= p < layers.len(),
        0 <= j < layers.len(),
    ensures
        layers.update(p, fresh).len() == layers.len(),
        layers.update(p, fresh)[p] == fresh,
        j != p ==> layers.update(p, fresh)[j] == layers[j],
{
}

} // verus!
