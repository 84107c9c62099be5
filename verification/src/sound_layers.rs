//! Removing a sound from a map's sound list in the editor.
//!
//! Sound layers refer to sounds by their index in the list. When the sound at
//! `index` is removed, every sound layer that refers to it loses its sound, and
//! every layer that refers to a later sound is moved down by one, so that it
//! keeps referring to the same sound. The removal is one group of editor
//! actions: one attribute change per affected layer (background groups first,
//! then foreground groups, each in group and layer order), then the removal.

use vstd::prelude::*;

verus! {

/// A layer of a group, as far as the removal of a sound reads it.
#[derive(Clone, Copy, Debug, PartialEq, Eq, Structural)]
pub enum LayerSound {
    /// A sound layer and the index of its sound, if it has one.
    Sound(Option<usize>),
    /// Any other kind of layer.
    Other,
}

/// The change of one sound layer's sound reference.
#[derive(Clone, Copy, Debug, PartialEq, Eq, Structural)]
pub struct SoundRefChange {
    pub is_background: bool,
    pub group_index: usize,
    pub layer_index: usize,
    pub old_sound: Option<usize>,
    pub new_sound: Option<usize>,
}

/// One editor action of the removal.
#[derive(Clone, Copy, Debug, PartialEq, Eq, Structural)]
pub enum SoundRemovalAction {
    /// Change the sound reference of a layer.
    ChangeLayer(SoundRefChange),
    /// Remove the sound at `index` from the list.
    RemoveSound(usize),
}

/// The reference that a layer with sound `s` holds once the sound at `index`
/// is removed.
pub open spec fn reindexed(s: Option<usize>, index: usize) -> Option<usize> {
    match s {
        Some(v) => if v < index {
            Some(v)
        } else if v == index {
            None
        } else {
            Some((v - 1) as usize)
        },
        None => None,
    }
}

/// Whether removing the sound at `index` changes a layer: exactly the sound
/// layers whose sound is at `index` or after it.
pub open spec fn is_affected(layer: LayerSound, index: usize) -> bool {
    layer matches LayerSound::Sound(Some(s)) && s >= index
}

/// The sound of a sound layer (none for other layers).
pub open spec fn sound_of(layer: LayerSound) -> Option<usize> {
    match layer {
        LayerSound::Sound(s) => s,
        LayerSound::Other => None,
    }
}

/// The changes for the layers of group `g`, in layer order.
pub open spec fn layer_changes(layers: Seq<LayerSound>, is_background: bool, g: int, index: usize) -> Seq<SoundRefChange>
    decreases layers.len(),
{
    if layers.len() == 0 {
        Seq::empty()
    } else {
        let rest = layer_changes(layers.drop_last(), is_background, g, index);
        let l = layers.len() - 1;
        if is_affected(layers.last(), index) {
            rest.push(SoundRefChange {
                is_background,
                group_index: g as usize,
                layer_index: l as usize,
                old_sound: sound_of(layers.last()),
                new_sound: reindexed(sound_of(layers.last()), index),
            })
        } else {
            rest
        }
    }
}

/// The changes for all layers of `groups`, in group and layer order.
pub open spec fn group_changes(groups: Seq<Seq<LayerSound>>, is_background: bool, index: usize) -> Seq<SoundRefChange>
    decreases groups.len(),
{
    if groups.len() == 0 {
        Seq::empty()
    } else {
        group_changes(groups.drop_last(), is_background, index)
            + layer_changes(groups.last(), is_background, groups.len() - 1, index)
    }
}

pub open spec fn groups_view(groups: Seq<Vec<LayerSound>>) -> Seq<Seq<LayerSound>> {
    groups.map_values(|g: Vec<LayerSound>| g@)
}

/// The action group that removes the sound at `index`.
pub open spec fn removal_actions(background: Seq<Seq<LayerSound>>, foreground: Seq<Seq<LayerSound>>, index: usize) -> Seq<SoundRemovalAction> {
    (group_changes(background, true, index) + group_changes(foreground, false, index)).map_values(
        |c: SoundRefChange| SoundRemovalAction::ChangeLayer(c),
    ) + seq![SoundRemovalAction::RemoveSound(index)]
}

/// Appends to `out` the changes for the groups, in group and layer order.
fn collect_changes(groups: &Vec<Vec<LayerSound>>, is_background: bool, index: usize, out: &mut Vec<SoundRemovalAction>)
    ensures
        final(out)@ == old(out)@ + group_changes(groups_view(groups@), is_background, index).map_values(
            |c: SoundRefChange| SoundRemovalAction::ChangeLayer(c),
        ),
{
    let ghost gv = groups_view(groups@);
    let ghost start = out@;
    let mut g: usize = 0;
    while g < groups.len()
        invariant
            g <= groups@.len(),
            gv == groups_view(groups@),
            out@ == start + group_changes(gv.take(g as int), is_background, index).map_values(
                |c: SoundRefChange| SoundRemovalAction::ChangeLayer(c),
            ),
        decreases groups@.len() - g,
    {
        let layers = &groups[g];
        assert(gv[g as int] == layers@);
        let ghost before_group = out@;
        let mut l: usize = 0;
        while l < layers.len()
            invariant
                l <= layers@.len(),
                g < groups@.len(),
                gv[g as int] == layers@,
                out@ == before_group + layer_changes(layers@.take(l as int), is_background, g as int, index).map_values(
                    |c: SoundRefChange| SoundRemovalAction::ChangeLayer(c),
                ),
            decreases layers@.len() - l,
        {
            let layer = layers[l];
            assert(layers@.take(l as int + 1).drop_last() =~= layers@.take(l as int));
            assert(layers@.take(l as int + 1).last() == layer);
            match layer {
                LayerSound::Sound(Some(s)) => {
                    if s >= index {
                        let new_sound = if s == index {
                            None
                        } else {
                            Some(s - 1)
                        };
                        let ghost prev = out@;
                        let c = SoundRefChange {
                            is_background,
                            group_index: g,
                            layer_index: l,
                            old_sound: Some(s),
                            new_sound,
                        };
                        out.push(SoundRemovalAction::ChangeLayer(c));
                        assert(layer_changes(layers@.take(l as int + 1), is_background, g as int, index)
                            == layer_changes(layers@.take(l as int), is_background, g as int, index).push(c));
                        assert(out@ =~= before_group + layer_changes(layers@.take(l as int + 1), is_background, g as int, index).map_values(
                            |c: SoundRefChange| SoundRemovalAction::ChangeLayer(c),
                        ));
                    }
                },
                _ => {},
            }
            l = l + 1;
        }
        assert(layers@.take(layers@.len() as int) =~= layers@);
        assert(gv.take(g as int + 1).drop_last() =~= gv.take(g as int));
        assert(gv.take(g as int + 1).last() == gv[g as int]);
        assert(out@ =~= start + group_changes(gv.take(g as int + 1), is_background, index).map_values(
            |c: SoundRefChange| SoundRemovalAction::ChangeLayer(c),
        ));
        g = g + 1;
    }
    assert(gv.take(groups@.len() as int) =~= gv);
}

/// The editor actions that remove the sound at `index` from a list of
/// `sound_count` sounds: the layer changes for the background groups, then
/// for the foreground groups, then the removal itself.
pub fn sound_removal_actions(
    background: &Vec<Vec<LayerSound>>,
    foreground: &Vec<Vec<LayerSound>>,
    sound_count: usize,
    index: usize,
) -> (actions: Vec<SoundRemovalAction>)
    requires
        index < sound_count,
    ensures
        actions@ == removal_actions(groups_view(background@), groups_view(foreground@), index),
{
    let mut actions: Vec<SoundRemovalAction> = Vec::new();
    collect_changes(background, true, index, &mut actions);
    collect_changes(foreground, false, index, &mut actions);
    actions.push(SoundRemovalAction::RemoveSound(index));
    let ghost b = group_changes(groups_view(background@), true, index);
    let ghost f = group_changes(groups_view(foreground@), false, index);
    assert((b + f).map_values(|c: SoundRefChange| SoundRemovalAction::ChangeLayer(c))
        =~= b.map_values(|c: SoundRefChange| SoundRemovalAction::ChangeLayer(c)) + f.map_values(
        |c: SoundRefChange| SoundRemovalAction::ChangeLayer(c),
    ));
    assert(actions@ =~= removal_actions(groups_view(background@), groups_view(foreground@), index));
    actions
}

// ---- laws -------------------------------------------------------------------

/// After the removal every reference still points at the sound it pointed at:
/// a layer whose sound came before `index` keeps it, one whose sound came after
/// it is moved down by one, and both then name the same sound in the shorter
/// list; a layer that pointed at the removed sound has none.
pub proof fn law_reindex_keeps_sound<A>(sounds: Seq<A>, index: usize, s: usize)
    requires
        index < sounds.len(),
        s < sounds.len(),
    ensures
        s == index ==> reindexed(Some(s), index) is None,
        s != index ==> (reindexed(Some(s), index) matches Some(t) && t < sounds.remove(index as int).len()
            && sounds.remove(index as int)[t as int] == sounds[s as int]),
{
}

proof fn lemma_layer_changes(layers: Seq<LayerSound>, is_background: bool, g: int, index: usize)
    requires
        layers.len() <= usize::MAX,
    ensures
        forall|k: int| 0 <= k < layer_changes(layers, is_background, g, index).len() ==> {
            let c = #[trigger] layer_changes(layers, is_background, g, index)[k];
            &&& c.is_background == is_background
            &&& c.group_index == g as usize
            &&& c.layer_index < layers.len()
            &&& is_affected(layers[c.layer_index as int], index)
            &&& c.old_sound == sound_of(layers[c.layer_index as int])
            &&& c.new_sound == reindexed(c.old_sound, index)
        },
        forall|l: int| 0 <= l < layers.len() && is_affected(#[trigger] layers[l], index) ==>
            exists|k: int| 0 <= k < layer_changes(layers, is_background, g, index).len()
                && (#[trigger] layer_changes(layers, is_background, g, index)[k]).layer_index == l,
    decreases layers.len(),
{
    if layers.len() > 0 {
        let rest = layers.drop_last();
        lemma_layer_changes(rest, is_background, g, index);
        let all = layer_changes(layers, is_background, g, index);
        let part = layer_changes(rest, is_background, g, index);
        assert forall|k: int| 0 <= k < part.len() implies #[trigger] all[k] == part[k] by {}
        assert forall|l: int| 0 <= l < layers.len() && is_affected(#[trigger] layers[l], index) implies
            exists|k: int| 0 <= k < all.len() && (#[trigger] all[k]).layer_index == l by {
            if l < layers.len() - 1 {
                assert(rest[l] == layers[l]);
                let k = choose|k: int| 0 <= k < part.len() && (#[trigger] part[k]).layer_index == l;
                assert(all[k] == part[k]);
            } else {
                assert(all[part.len() as int].layer_index == l);
            }
        }
        assert forall|k: int| 0 <= k < all.len() implies {
            let c = #[trigger] all[k];
            &&& c.is_background == is_background
            &&& c.group_index == g as usize
            &&& c.layer_index < layers.len()
            &&& is_affected(layers[c.layer_index as int], index)
            &&& c.old_sound == sound_of(layers[c.layer_index as int])
            &&& c.new_sound == reindexed(c.old_sound, index)
        } by {
            if k < part.len() {
                assert(all[k] == part[k]);
                assert(rest[part[k].layer_index as int] == layers[part[k].layer_index as int]);
            }
        }
    }
}

proof fn lemma_group_changes(groups: Seq<Seq<LayerSound>>, is_background: bool, index: usize)
    requires
        groups.len() <= usize::MAX,
        forall|g: int| 0 <= g < groups.len() ==> (#[trigger] groups[g]).len() <= usize::MAX,
    ensures
        forall|k: int| 0 <= k < group_changes(groups, is_background, index).len() ==> {
            let c = #[trigger] group_changes(groups, is_background, index)[k];
            &&& c.is_background == is_background
            &&& c.group_index < groups.len()
            &&& c.layer_index < groups[c.group_index as int].len()
            &&& is_affected(groups[c.group_index as int][c.layer_index as int], index)
            &&& c.old_sound == sound_of(groups[c.group_index as int][c.layer_index as int])
            &&& c.new_sound == reindexed(c.old_sound, index)
        },
        forall|g: int, l: int| 0 <= g < groups.len() && 0 <= l < groups[g].len() && is_affected(#[trigger] groups[g][l], index) ==>
            exists|k: int| 0 <= k < group_changes(groups, is_background, index).len()
                && (#[trigger] group_changes(groups, is_background, index)[k]).group_index == g
                && group_changes(groups, is_background, index)[k].layer_index == l,
    decreases groups.len(),
{
    if groups.len() > 0 {
        let rest = groups.drop_last();
        let last = groups.len() - 1;
        assert forall|g: int| 0 <= g < rest.len() implies (#[trigger] rest[g]).len() <= usize::MAX by {
            assert(rest[g] == groups[g]);
        }
        lemma_group_changes(rest, is_background, index);
        lemma_layer_changes(groups.last(), is_background, last, index);
        let part = group_changes(rest, is_background, index);
        let tail = layer_changes(groups.last(), is_background, last, index);
        let all = group_changes(groups, is_background, index);
        assert(all == part + tail);
        assert forall|k: int| 0 <= k < all.len() implies {
            let c = #[trigger] all[k];
            &&& c.is_background == is_background
            &&& c.group_index < groups.len()
            &&& c.layer_index < groups[c.group_index as int].len()
            &&& is_affected(groups[c.group_index as int][c.layer_index as int], index)
            &&& c.old_sound == sound_of(groups[c.group_index as int][c.layer_index as int])
            &&& c.new_sound == reindexed(c.old_sound, index)
        } by {
            if k < part.len() {
                assert(all[k] == part[k]);
                assert(rest[part[k].group_index as int] == groups[part[k].group_index as int]);
            } else {
                assert(all[k] == tail[k - part.len()]);
            }
        }
        assert forall|g: int, l: int| 0 <= g < groups.len() && 0 <= l < groups[g].len() && is_affected(#[trigger] groups[g][l], index) implies
            exists|k: int| 0 <= k < all.len() && (#[trigger] all[k]).group_index == g && all[k].layer_index == l by {
            if g < last {
                assert(rest[g] == groups[g]);
                assert(is_affected(rest[g][l], index));
                let k = choose|k: int| 0 <= k < part.len() && (#[trigger] part[k]).group_index == g && part[k].layer_index == l;
                assert(all[k] == part[k]);
            } else {
                assert(groups.last()[l] == groups[g][l]);
                let k = choose|k: int| 0 <= k < tail.len() && (#[trigger] tail[k]).layer_index == l;
                assert(all[part.len() + k] == tail[k]);
            }
        }
    }
}

/// The removal changes exactly the sound layers that refer to the removed
/// sound or to a later one: each change names such a layer, holds its old
/// reference and the re-indexed one, and every such layer has a change.
pub proof fn law_changes_are_exactly_the_affected_layers(groups: Seq<Seq<LayerSound>>, is_background: bool, index: usize)
    requires
        groups.len() <= usize::MAX,
        forall|g: int| 0 <= g < groups.len() ==> (#[trigger] groups[g]).len() <= usize::MAX,
    ensures
        forall|k: int| 0 <= k < group_changes(groups, is_background, index).len() ==> {
            let c = #[trigger] group_changes(groups, is_background, index)[k];
            &&& c.is_background == is_background
            &&& c.group_index < groups.len()
            &&& c.layer_index < groups[c.group_index as int].len()
            &&& is_affected(groups[c.group_index as int][c.layer_index as int], index)
            &&& c.old_sound == sound_of(groups[c.group_index as int][c.layer_index as int])
            &&& c.new_sound == reindexed(c.old_sound, index)
        },
        forall|g: int, l: int| 0 <= g < groups.len() && 0 <= l < groups[g].len() && is_affected(#[trigger] groups[g][l], index) ==>
            exists|k: int| 0 <= k < group_changes(groups, is_background, index).len()
                && (#[trigger] group_changes(groups, is_background, index)[k]).group_index == g
                && group_changes(groups, is_background, index)[k].layer_index == l,
{
    lemma_group_changes(groups, is_background, index);
}

/// Removing the sound at `index` re-indexes exactly the sound layers whose
/// sound is at `index` or after it, wherever it lies: every change is for a
/// layer that holds such a sound, and records it with its new reference (none
/// for the removed sound, the one before it for a later sound); and every
/// such layer, however far after `index` its sound lies, has a change.
pub proof fn law_every_later_sound_layer_changes(groups: Seq<Seq<LayerSound>>, is_background: bool, index: usize)
    requires
        groups.len() <= usize::MAX,
        forall|g: int| 0 <= g < groups.len() ==> (#[trigger] groups[g]).len() <= usize::MAX,
    ensures
        forall|k: int| 0 <= k < group_changes(groups, is_background, index).len() ==> {
            let c = #[trigger] group_changes(groups, is_background, index)[k];
            &&& c.is_background == is_background
            &&& c.group_index < groups.len()
            &&& c.layer_index < groups[c.group_index as int].len()
            &&& c.old_sound matches Some(s)
            &&& s >= index
            &&& groups[c.group_index as int][c.layer_index as int] == LayerSound::Sound(Some(s))
            &&& c.new_sound == (if s == index { None } else { Some((s - 1) as usize) })
        },
        forall|g: int, l: int|
            0 <= g < groups.len() && 0 <= l < groups[g].len() && (#[trigger] groups[g][l] matches LayerSound::Sound(Some(s))
                && s >= index) ==>
            exists|k: int| 0 <= k < group_changes(groups, is_background, index).len()
                && (#[trigger] group_changes(groups, is_background, index)[k]).group_index == g
                && group_changes(groups, is_background, index)[k].layer_index == l,
        forall|g: int, l: int| 0 <= g < groups.len() && 0 <= l < groups[g].len() && !(#[trigger] groups[g][l] matches LayerSound::Sound(Some(s)) && s >= index) ==>
            forall|k: int| 0 <= k < group_changes(groups, is_background, index).len() ==>
                !((#[trigger] group_changes(groups, is_background, index)[k]).group_index == g
                    && group_changes(groups, is_background, index)[k].layer_index == l),
{
    lemma_group_changes(groups, is_background, index);
    let gc = group_changes(groups, is_background, index);
    assert forall|k: int| 0 <= k < gc.len() implies {
        let c = #[trigger] gc[k];
        &&& c.is_background == is_background
        &&& c.group_index < groups.len()
        &&& c.layer_index < groups[c.group_index as int].len()
        &&& c.old_sound matches Some(s)
        &&& s >= index
        &&& groups[c.group_index as int][c.layer_index as int] == LayerSound::Sound(Some(s))
        &&& c.new_sound == (if s == index { None } else { Some((s - 1) as usize) })
    } by {
        let c = gc[k];
        assert(is_affected(groups[c.group_index as int][c.layer_index as int], index));
    }
    assert forall|g: int, l: int|
        0 <= g < groups.len() && 0 <= l < groups[g].len() && (#[trigger] groups[g][l] matches LayerSound::Sound(Some(s))
            && s >= index) implies
        exists|k: int| 0 <= k < gc.len() && (#[trigger] gc[k]).group_index == g && gc[k].layer_index == l by {
        assert(is_affected(groups[g][l], index));
    }
}

/// The removal is one group of actions that ends with removing the sound at
/// `index`; every action before it changes a layer, and the changes of
/// background layers all come before those of foreground layers.
pub proof fn law_removal_action_order(background: Seq<Seq<LayerSound>>, foreground: Seq<Seq<LayerSound>>, index: usize)
    requires
        background.len() <= usize::MAX,
        forall|g: int| 0 <= g < background.len() ==> (#[trigger] background[g]).len() <= usize::MAX,
        foreground.len() <= usize::MAX,
        forall|g: int| 0 <= g < foreground.len() ==> (#[trigger] foreground[g]).len() <= usize::MAX,
    ensures
        removal_actions(background, foreground, index).len() >= 1,
        removal_actions(background, foreground, index).last() == SoundRemovalAction::RemoveSound(index),
        forall|k: int| 0 <= k < removal_actions(background, foreground, index).len() - 1
            ==> #[trigger] removal_actions(background, foreground, index)[k] is ChangeLayer,
        forall|k1: int, k2: int| 0 <= k1 < k2 < removal_actions(background, foreground, index).len() - 1
            && !(#[trigger] removal_actions(background, foreground, index)[k1])->ChangeLayer_0.is_background
            ==> !(#[trigger] removal_actions(background, foreground, index)[k2])->ChangeLayer_0.is_background,
{
    lemma_group_changes(background, true, index);
    lemma_group_changes(foreground, false, index);
    let b = group_changes(background, true, index);
    let f = group_changes(foreground, false, index);
    let ch = (b + f).map_values(|c: SoundRefChange| SoundRemovalAction::ChangeLayer(c));
    let a = removal_actions(background, foreground, index);
    assert(a == ch + seq![SoundRemovalAction::RemoveSound(index)]);
    assert(a.len() == b.len() + f.len() + 1);
    assert forall|k: int| 0 <= k < a.len() - 1 implies (#[trigger] a[k] is ChangeLayer
        && a[k]->ChangeLayer_0 == (b + f)[k]) by {
        assert(a[k] == ch[k]);
    }
    assert forall|k1: int, k2: int| 0 <= k1 < k2 < a.len() - 1 && !(#[trigger] a[k1])->ChangeLayer_0.is_background
        implies !(#[trigger] a[k2])->ChangeLayer_0.is_background by {
        assert(a[k1] == ch[k1]);
        assert(a[k2] == ch[k2]);
        if k1 < b.len() {
            assert((b + f)[k1] == b[k1]);
        }
        assert(k2 >= b.len());
        assert((b + f)[k2] == f[k2 - b.len()]);
    }
}

} // verus!
