//! What the dashboard edits: groups of rules, named values and switches.
use crate::seqs;
use crate::text;
use vstd::prelude::*;

verus! {

/// A named text: a group of rules or a value.
#[derive(Debug)]
pub struct ListItem {
    /// The name, which no other item of the list has.
    pub name: String,
    pub data: String,
    /// Whether it is chosen. Values never are.
    pub selected: bool,
}

/// What an item holds.
pub struct ItemModel {
    pub name: Seq<char>,
    pub data: Seq<char>,
    pub selected: bool,
}

impl View for ListItem {
    type V = ItemModel;

    open spec fn view(&self) -> ItemModel {
        ItemModel { name: self.name@, data: self.data@, selected: self.selected }
    }
}

impl Clone for ListItem {
    fn clone(&self) -> (r: Self)
        ensures
            r == *self,
    {
        ListItem { name: self.name.clone(), data: self.data.clone(), selected: self.selected }
    }
}

/// What a list of items holds.
pub open spec fn items(v: Seq<ListItem>) -> Seq<ItemModel> {
    Seq::new(v.len(), |i: int| v[i]@)
}

/// All that the dashboard edits.
#[derive(Debug)]
pub struct WhistleData {
    /// The rules that always hold, unless they are switched off.
    pub default_rules: String,
    pub default_disabled: bool,
    /// Whether all rules are switched off.
    pub disabled_all_rules: bool,
    /// Whether several groups can be chosen at once.
    pub allow_multiple_choice: bool,
    /// Whether the chosen groups come before the default rules.
    pub back_rules_first: bool,
    pub rules: Vec<ListItem>,
    pub values: Vec<ListItem>,
    /// Groups that were removed, the latest last.
    pub rules_recycle: Vec<ListItem>,
    /// Values that were removed, the latest last.
    pub values_recycle: Vec<ListItem>,
}

/// All that the dashboard edits.
pub struct DataModel {
    pub default_rules: Seq<char>,
    pub default_disabled: bool,
    pub disabled_all_rules: bool,
    pub allow_multiple_choice: bool,
    pub back_rules_first: bool,
    pub rules: Seq<ItemModel>,
    pub values: Seq<ItemModel>,
    pub rules_recycle: Seq<ItemModel>,
    pub values_recycle: Seq<ItemModel>,
}

impl View for WhistleData {
    type V = DataModel;

    open spec fn view(&self) -> DataModel {
        DataModel {
            default_rules: self.default_rules@,
            default_disabled: self.default_disabled,
            disabled_all_rules: self.disabled_all_rules,
            allow_multiple_choice: self.allow_multiple_choice,
            back_rules_first: self.back_rules_first,
            rules: items(self.rules@),
            values: items(self.values@),
            rules_recycle: items(self.rules_recycle@),
            values_recycle: items(self.values_recycle@),
        }
    }
}

impl Clone for WhistleData {
    fn clone(&self) -> (r: Self)
        ensures
            r@ == self@,
    {
        let r = WhistleData {
            default_rules: self.default_rules.clone(),
            default_disabled: self.default_disabled,
            disabled_all_rules: self.disabled_all_rules,
            allow_multiple_choice: self.allow_multiple_choice,
            back_rules_first: self.back_rules_first,
            rules: self.rules.clone(),
            values: self.values.clone(),
            rules_recycle: self.rules_recycle.clone(),
            values_recycle: self.values_recycle.clone(),
        };
        proof {
            assert(r.rules@ =~= self.rules@);
            assert(r.values@ =~= self.values@);
            assert(r.rules_recycle@ =~= self.rules_recycle@);
            assert(r.values_recycle@ =~= self.values_recycle@);
        }
        r
    }
}

/// Nothing was edited yet.
pub open spec fn nothing() -> DataModel {
    DataModel {
        default_rules: seq![],
        default_disabled: false,
        disabled_all_rules: false,
        allow_multiple_choice: false,
        back_rules_first: false,
        rules: seq![],
        values: seq![],
        rules_recycle: seq![],
        values_recycle: seq![],
    }
}

impl Default for WhistleData {
    fn default() -> (r: WhistleData)
        ensures
            r@ == nothing(),
    {
        let r = WhistleData {
            default_rules: String::new(),
            default_disabled: false,
            disabled_all_rules: false,
            allow_multiple_choice: false,
            back_rules_first: false,
            rules: Vec::new(),
            values: Vec::new(),
            rules_recycle: Vec::new(),
            values_recycle: Vec::new(),
        };
        proof {
            assert(r@.default_rules =~= seq![]);
            assert(r@.rules =~= seq![]);
            assert(r@.values =~= seq![]);
            assert(r@.rules_recycle =~= seq![]);
            assert(r@.values_recycle =~= seq![]);
        }
        r
    }
}

// ---- lists of items ----

/// The position of the first item with this name, from `i` on.
pub open spec fn position_from(list: Seq<ItemModel>, name: Seq<char>, i: int) -> Option<int>
    decreases list.len() - i,
{
    if i < 0 || i >= list.len() {
        None
    } else if list[i].name == name {
        Some(i)
    } else {
        position_from(list, name, i + 1)
    }
}

/// The position of the first item with this name.
pub open spec fn position(list: Seq<ItemModel>, name: Seq<char>) -> Option<int> {
    position_from(list, name, 0)
}

/// No two items have the same name.
pub open spec fn distinct(list: Seq<ItemModel>) -> bool {
    forall|i: int, j: int|
        0 <= i < j < list.len() ==> (#[trigger] list[i]).name != (#[trigger] list[j]).name
}

/// The list with an item of this name and text: in its place where there is one, last else.
pub open spec fn with_item(list: Seq<ItemModel>, name: Seq<char>, data: Seq<char>) -> Seq<
    ItemModel,
> {
    match position(list, name) {
        Some(i) => list.update(i, ItemModel { data, ..list[i] }),
        None => list.push(ItemModel { name, data, selected: false }),
    }
}

/// The most items that are kept of those that were removed.
pub const RECYCLE_LIMIT: usize = 64;

/// The list without the items of this name.
pub open spec fn without_named(list: Seq<ItemModel>, name: Seq<char>) -> Seq<ItemModel> {
    list.filter(|i: ItemModel| i.name != name)
}

/// The removed items with one more, in place of an earlier one of its name. Where there are too
/// many, the oldest leaves.
pub open spec fn recycled(bin: Seq<ItemModel>, item: ItemModel) -> Seq<ItemModel> {
    let more = without_named(bin, item.name).push(item);
    if more.len() > RECYCLE_LIMIT {
        more.remove(0)
    } else {
        more
    }
}

/// The list without the item of this name.
pub open spec fn without_item(list: Seq<ItemModel>, name: Seq<char>) -> Seq<ItemModel> {
    match position(list, name) {
        Some(i) => list.remove(i),
        None => list,
    }
}

/// An item can get this other name: it is there, and the other name is free.
pub open spec fn can_rename(list: Seq<ItemModel>, from: Seq<char>, to: Seq<char>) -> bool {
    position(list, to) is None && position(list, from) is Some
}

/// The list with an item under another name.
pub open spec fn renamed(list: Seq<ItemModel>, from: Seq<char>, to: Seq<char>) -> Seq<ItemModel> {
    if can_rename(list, from, to) {
        let i = position(list, from)->0;
        list.update(i, ItemModel { name: to, ..list[i] })
    } else {
        list
    }
}

/// The list with an item in the place of another. The items from there on make room for it.
pub open spec fn moved(list: Seq<ItemModel>, name: Seq<char>, to: Seq<char>) -> Seq<ItemModel> {
    match (position(list, name), position(list, to)) {
        (Some(i), Some(j)) => list.remove(i).insert(j, list[i]),
        _ => list,
    }
}

/// The list with an item in front of the others.
pub open spec fn moved_first(list: Seq<ItemModel>, name: Seq<char>) -> Seq<ItemModel> {
    match position(list, name) {
        Some(i) => list.remove(i).insert(0, list[i]),
        None => list,
    }
}

/// The names of the items.
pub open spec fn names(list: Seq<ItemModel>) -> Seq<Seq<char>> {
    list.map_values(|i: ItemModel| i.name)
}

/// The items that are chosen.
pub open spec fn chosen(list: Seq<ItemModel>) -> Seq<ItemModel> {
    list.filter(|i: ItemModel| i.selected)
}

pub proof fn lemma_position_from(list: Seq<ItemModel>, name: Seq<char>, i: int)
    requires
        0 <= i,
    ensures
        match position_from(list, name, i) {
            Some(k) => i <= k < list.len() && list[k].name == name && forall|j: int|
                i <= j < k ==> (#[trigger] list[j]).name != name,
            None => forall|j: int| i <= j < list.len() ==> (#[trigger] list[j]).name != name,
        },
    decreases list.len() - i,
{
    if i < list.len() && list[i].name != name {
        lemma_position_from(list, name, i + 1);
    }
}

/// The position of the first item with this name.
pub fn find_item(list: &Vec<ListItem>, name: &str) -> (r: Option<usize>)
    ensures
        match r {
            Some(i) => position(items(list@), name@) == Some(i as int) && i < list.len(),
            None => position(items(list@), name@) is None,
        },
{
    let ghost all = items(list@);
    let mut i: usize = 0;
    while i < list.len()
        invariant
            i <= list.len(),
            all == items(list@),
            position(all, name@) == position_from(all, name@, i as int),
        decreases list.len() - i,
    {
        if text::same(list[i].name.as_str(), name) {
            return Some(i);
        }
        i += 1;
    }
    None
}

fn put_item(list: &mut Vec<ListItem>, name: &str, data: &str) -> (r: bool)
    ensures
        r == (position(items(old(list)@), name@) is None),
        items(final(list)@) == with_item(items(old(list)@), name@, data@),
{
    let ghost before = items(list@);
    match find_item(list, name) {
        Some(i) => {
            let selected = list[i].selected;
            list.set(i, ListItem { name: name.to_string(), data: data.to_string(), selected });
            proof {
                lemma_position_from(before, name@, 0);
                assert(items(list@) =~= with_item(before, name@, data@));
            }
            false
        },
        None => {
            list.push(
                ListItem { name: name.to_string(), data: data.to_string(), selected: false },
            );
            proof {
                assert(items(list@) =~= with_item(before, name@, data@));
            }
            true
        },
    }
}

fn recycle_item(list: &mut Vec<ListItem>, bin: &mut Vec<ListItem>, name: &str) -> (r: bool)
    ensures
        r == (position(items(old(list)@), name@) is Some),
        items(final(list)@) == without_item(items(old(list)@), name@),
        items(final(bin)@) == match position(items(old(list)@), name@) {
            Some(i) => recycled(items(old(bin)@), items(old(list)@)[i]),
            None => items(old(bin)@),
        },
{
    let ghost before = items(list@);
    match find_item(list, name) {
        Some(i) => {
            let item = list.remove(i);
            proof {
                assert(items(list@) =~= before.remove(i as int));
            }
            let ghost kept = item@;
            drop_item(bin, item.name.as_str());
            let ghost others = items(bin@);
            bin.push(item);
            proof {
                assert(items(bin@) =~= others.push(kept));
            }
            if bin.len() > RECYCLE_LIMIT {
                bin.remove(0);
                proof {
                    assert(items(bin@) =~= others.push(kept).remove(0));
                }
            }
            true
        },
        None => false,
    }
}

fn rename_item(list: &mut Vec<ListItem>, from: &str, to: &str) -> (r: bool)
    ensures
        r == can_rename(items(old(list)@), from@, to@),
        items(final(list)@) == renamed(items(old(list)@), from@, to@),
{
    let ghost before = items(list@);
    if find_item(list, to).is_some() {
        return false;
    }
    match find_item(list, from) {
        Some(i) => {
            let data = list[i].data.clone();
            let selected = list[i].selected;
            list.set(i, ListItem { name: to.to_string(), data, selected });
            proof {
                assert(items(list@) =~= renamed(before, from@, to@));
            }
            true
        },
        None => false,
    }
}

/// Moves an item to the place of another.
pub fn move_to(list: &mut Vec<ListItem>, name: &str, to: &str) -> (r: bool)
    ensures
        r == (position(items(old(list)@), name@) is Some
            && position(items(old(list)@), to@) is Some),
        items(final(list)@) == moved(items(old(list)@), name@, to@),
{
    let ghost before = items(list@);
    match (find_item(list, name), find_item(list, to)) {
        (Some(i), Some(j)) => {
            let item = list.remove(i);
            let ghost kept = item@;
            proof {
                assert(items(list@) =~= before.remove(i as int));
            }
            list.insert(j, item);
            proof {
                assert(items(list@) =~= before.remove(i as int).insert(j as int, kept));
            }
            true
        },
        _ => false,
    }
}

fn move_first(list: &mut Vec<ListItem>, name: &str) -> (r: bool)
    ensures
        r == (position(items(old(list)@), name@) is Some),
        items(final(list)@) == moved_first(items(old(list)@), name@),
{
    let ghost before = items(list@);
    match find_item(list, name) {
        Some(i) => {
            let item = list.remove(i);
            let ghost kept = item@;
            proof {
                assert(items(list@) =~= before.remove(i as int));
            }
            list.insert(0, item);
            proof {
                assert(items(list@) =~= before.remove(i as int).insert(0, kept));
            }
            true
        },
        None => false,
    }
}

fn drop_item(list: &mut Vec<ListItem>, name: &str) -> (r: bool)
    ensures
        r == (position(items(old(list)@), name@) is Some),
        items(final(list)@) == without_named(items(old(list)@), name@),
{
    let ghost all = items(list@);
    let ghost keep = |i: ItemModel| i.name != name@;
    let found = find_item(list, name).is_some();
    let mut out: Vec<ListItem> = Vec::new();
    let mut i: usize = 0;
    proof {
        reveal(Seq::filter);
        assert(items(out@) =~= all.take(0).filter(keep));
    }
    while i < list.len()
        invariant
            i <= list.len(),
            all == items(list@),
            keep == (|i: ItemModel| i.name != name@),
            items(out@) == all.take(i as int).filter(keep),
        decreases list.len() - i,
    {
        let ghost now = items(out@);
        proof {
            seqs::lemma_filter_step(all, i as int, keep);
            assert(all[i as int] == list@[i as int]@);
        }
        if !text::same(list[i].name.as_str(), name) {
            out.push(list[i].clone());
            proof {
                assert(items(out@) =~= now.push(all[i as int]));
            }
        }
        i += 1;
    }
    proof {
        assert(all.take(all.len() as int) =~= all);
    }
    *list = out;
    found
}

/// The names of the items.
pub fn item_names(list: &Vec<ListItem>) -> (r: Vec<String>)
    ensures
        seqs::texts(r@) == names(items(list@)),
{
    let mut out: Vec<String> = Vec::new();
    let mut i: usize = 0;
    while i < list.len()
        invariant
            i <= list.len(),
            out@.len() == i,
            forall|k: int| 0 <= k < i ==> #[trigger] out@[k]@ == list@[k].name@,
        decreases list.len() - i,
    {
        out.push(list[i].name.clone());
        i += 1;
    }
    proof {
        assert(seqs::texts(out@) =~= names(items(list@)));
    }
    out
}

/// The text of the item with this name.
pub fn item_data(list: &Vec<ListItem>, name: &str) -> (r: Option<String>)
    ensures
        match r {
            Some(d) => position(items(list@), name@) matches Some(i) && d@ == items(list@)[i].data,
            None => position(items(list@), name@) is None,
        },
{
    match find_item(list, name) {
        Some(i) => Some(list[i].data.clone()),
        None => None,
    }
}

// ---- the rules that hold ----

/// The texts that the rules are made of: the default rules, unless they are switched off, and
/// the chosen groups.
pub open spec fn blocks(d: DataModel) -> Seq<Seq<char>> {
    let default_block = if d.default_disabled || d.default_rules.len() == 0 {
        seq![]
    } else {
        seq![d.default_rules]
    };
    let groups = chosen(d.rules).map_values(|i: ItemModel| i.data);
    if d.back_rules_first {
        groups + default_block
    } else {
        default_block + groups
    }
}

/// The texts that are not blank.
pub open spec fn not_blank(texts: Seq<Seq<char>>) -> Seq<Seq<char>> {
    texts.filter(|b: Seq<char>| seqs::trim(b).len() > 0)
}

/// The rules that hold, as one text.
pub open spec fn effective(d: DataModel) -> Seq<char> {
    if d.disabled_all_rules {
        seq![]
    } else {
        seqs::join(not_blank(blocks(d)), "\n"@)
    }
}

/// The list with the item at `i` chosen, and no other unless several can be.
pub open spec fn with_chosen(list: Seq<ItemModel>, i: int, several: bool) -> Seq<ItemModel> {
    Seq::new(
        list.len(),
        |k: int|
            ItemModel {
                selected: k == i || (several && list[k].selected),
                ..list[k]
            },
    )
}

/// The list with the items of this name chosen, and no others.
pub open spec fn with_only(list: Seq<ItemModel>, name: Seq<char>) -> Seq<ItemModel> {
    Seq::new(list.len(), |k: int| ItemModel { selected: list[k].name == name, ..list[k] })
}

fn choose_only(list: &mut Vec<ListItem>, name: &str)
    ensures
        items(final(list)@) == with_only(items(old(list)@), name@),
{
    let ghost before = items(list@);
    let mut k: usize = 0;
    while k < list.len()
        invariant
            k <= list.len(),
            list.len() == before.len(),
            forall|j: int| 0 <= j < k ==> (#[trigger] list@[j])@ == with_only(before, name@)[j],
            forall|j: int| k <= j < list.len() ==> (#[trigger] list@[j])@ == before[j],
        decreases list.len() - k,
    {
        let item = list[k].clone();
        let selected = text::same(item.name.as_str(), name);
        list.set(k, ListItem { name: item.name, data: item.data, selected });
        k += 1;
    }
    proof {
        assert(items(list@) =~= with_only(before, name@));
    }
}

fn choose_at(list: &mut Vec<ListItem>, i: usize, several: bool)
    requires
        i < old(list).len(),
    ensures
        items(final(list)@) == with_chosen(items(old(list)@), i as int, several),
{
    let ghost before = items(list@);
    let mut k: usize = 0;
    while k < list.len()
        invariant
            k <= list.len(),
            list.len() == before.len(),
            i < list.len(),
            forall|j: int|
                0 <= j < k ==> (#[trigger] list@[j])@ == with_chosen(before, i as int, several)[j],
            forall|j: int| k <= j < list.len() ==> (#[trigger] list@[j])@ == before[j],
        decreases list.len() - k,
    {
        let item = list[k].clone();
        let selected = k == i || (several && item.selected);
        list.set(k, ListItem { name: item.name, data: item.data, selected });
        k += 1;
    }
    proof {
        assert(items(list@) =~= with_chosen(before, i as int, several));
    }
}

impl WhistleData {
    /// The rules that hold, as one text.
    pub fn effective_text(&self) -> (r: String)
        ensures
            r@ == effective(self@),
    {
        if self.disabled_all_rules {
            let r = String::new();
            proof {
                assert(r@ =~= seq![]);
            }
            return r;
        }
        let mut parts: Vec<&str> = Vec::new();
        let ghost keep = |i: ItemModel| i.selected;
        let ghost data = |i: ItemModel| i.data;
        let ghost default_block: Seq<Seq<char>> = if self.default_disabled
            || self.default_rules@.len() == 0 {
            seq![]
        } else {
            seq![self.default_rules@]
        };
        let with_default = !self.default_disabled && !self.default_rules.as_str().is_empty();
        if !self.back_rules_first && with_default {
            parts.push(self.default_rules.as_str());
        }
        let ghost head = seqs::slices(parts@);
        let ghost all = items(self.rules@);
        let mut i: usize = 0;
        proof {
            reveal(Seq::filter);
            if !self.back_rules_first {
                assert(head =~= default_block);
            } else {
                assert(head =~= seq![]);
            }
            assert(head =~= head + all.take(0).filter(keep).map_values(data));
        }
        while i < self.rules.len()
            invariant
                i <= self.rules.len(),
                all == items(self.rules@),
                keep == (|i: ItemModel| i.selected),
                data == (|i: ItemModel| i.data),
                seqs::slices(parts@) == head + all.take(i as int).filter(keep).map_values(data),
            decreases self.rules.len() - i,
        {
            let ghost now = seqs::slices(parts@);
            proof {
                seqs::lemma_filter_step(all, i as int, keep);
            }
            if self.rules[i].selected {
                parts.push(self.rules[i].data.as_str());
                proof {
                    assert(seqs::slices(parts@) =~= now.push(all[i as int].data));
                    assert(seqs::slices(parts@) =~= head + all.take(i + 1).filter(keep).map_values(
                        data,
                    ));
                }
            }
            i += 1;
        }
        proof {
            assert(all.take(all.len() as int) =~= all);
        }
        let ghost now = seqs::slices(parts@);
        if self.back_rules_first && with_default {
            parts.push(self.default_rules.as_str());
            proof {
                assert(seqs::slices(parts@) =~= now.push(self.default_rules@));
            }
        }
        proof {
            assert(seqs::slices(parts@) =~= blocks(self@));
        }
        join_not_blank(&parts)
    }

    /// The number of groups that are chosen.
    pub fn enabled_count(&self) -> (r: usize)
        ensures
            r == chosen(self@.rules).len(),
    {
        let ghost all = items(self.rules@);
        let ghost keep = |i: ItemModel| i.selected;
        let mut n: usize = 0;
        let mut i: usize = 0;
        proof {
            reveal(Seq::filter);
            assert(all.take(0).filter(keep).len() == 0);
        }
        while i < self.rules.len()
            invariant
                i <= self.rules.len(),
                n <= i,
                all == items(self.rules@),
                keep == (|i: ItemModel| i.selected),
                n == all.take(i as int).filter(keep).len(),
            decreases self.rules.len() - i,
        {
            proof {
                seqs::lemma_filter_step(all, i as int, keep);
            }
            if self.rules[i].selected {
                n += 1;
            }
            i += 1;
        }
        proof {
            assert(all.take(all.len() as int) =~= all);
        }
        n
    }

    /// The names of the groups that are chosen.
    pub fn selected_names(&self) -> (r: Vec<String>)
        ensures
            seqs::texts(r@) == names(chosen(self@.rules)),
    {
        let ghost all = items(self.rules@);
        let ghost keep = |i: ItemModel| i.selected;
        let mut out: Vec<String> = Vec::new();
        let mut i: usize = 0;
        proof {
            reveal(Seq::filter);
            assert(seqs::texts(out@) =~= names(all.take(0).filter(keep)));
        }
        while i < self.rules.len()
            invariant
                i <= self.rules.len(),
                all == items(self.rules@),
                keep == (|i: ItemModel| i.selected),
                seqs::texts(out@) == names(all.take(i as int).filter(keep)),
            decreases self.rules.len() - i,
        {
            let ghost now = seqs::texts(out@);
            proof {
                seqs::lemma_filter_step(all, i as int, keep);
            }
            if self.rules[i].selected {
                out.push(self.rules[i].name.clone());
                proof {
                    assert(seqs::texts(out@) =~= now.push(all[i as int].name));
                    assert(seqs::texts(out@) =~= names(all.take(i + 1).filter(keep)));
                }
            }
            i += 1;
        }
        proof {
            assert(all.take(all.len() as int) =~= all);
        }
        out
    }

    /// Saves the text of a group, which is made where there is none. Tells whether it is new.
    pub fn add_rule(&mut self, name: &str, data: &str) -> (r: bool)
        ensures
            r == (position(old(self)@.rules, name@) is None),
            final(self)@ == (DataModel {
                rules: with_item(old(self)@.rules, name@, data@),
                ..old(self)@
            }),
    {
        put_item(&mut self.rules, name, data)
    }

    /// Removes a group, which is kept among those that were removed. Tells whether it was there.
    pub fn remove_rule(&mut self, name: &str) -> (r: bool)
        ensures
            r == (position(old(self)@.rules, name@) is Some),
            final(self)@ == rule_removed(old(self)@, name@),
    {
        recycle_item(&mut self.rules, &mut self.rules_recycle, name)
    }

    /// Gives a group another name. Tells whether this was done: the group has to be there, and
    /// the other name has to be free.
    pub fn rename_rule(&mut self, from: &str, to: &str) -> (r: bool)
        ensures
            r == can_rename(old(self)@.rules, from@, to@),
            final(self)@ == (DataModel {
                rules: renamed(old(self)@.rules, from@, to@),
                ..old(self)@
            }),
    {
        rename_item(&mut self.rules, from, to)
    }

    /// Chooses a group, and no other unless several can be. Tells whether it is there.
    pub fn select_rule(&mut self, name: &str) -> (r: bool)
        ensures
            r == (position(old(self)@.rules, name@) is Some),
            final(self)@ == rule_selected(old(self)@, name@),
    {
        match find_item(&self.rules, name) {
            Some(i) => {
                choose_at(&mut self.rules, i, self.allow_multiple_choice);
                true
            },
            None => false,
        }
    }

    /// Makes a group not chosen. Tells whether it is there.
    pub fn unselect_rule(&mut self, name: &str) -> (r: bool)
        ensures
            r == (position(old(self)@.rules, name@) is Some),
            final(self)@ == rule_unselected(old(self)@, name@),
    {
        match find_item(&self.rules, name) {
            Some(i) => {
                let item = self.rules[i].clone();
                self.rules.set(
                    i,
                    ListItem { name: item.name, data: item.data, selected: false },
                );
                proof {
                    assert(self@.rules =~= rule_unselected(old(self)@, name@).rules);
                }
                true
            },
            None => false,
        }
    }

    /// Where several groups were chosen, only the last of them stays so.
    pub fn keep_last_choice(&mut self)
        ensures
            final(self)@ == last_choice_kept(old(self)@),
    {
        let chosen_names = self.selected_names();
        proof {
            assert(names(chosen(self@.rules)).len() == chosen_names@.len());
        }
        if chosen_names.len() > 0 {
            let last = chosen_names[chosen_names.len() - 1].clone();
            proof {
                assert(last@ == seqs::texts(chosen_names@).last());
            }
            choose_only(&mut self.rules, last.as_str());
        }
    }

    /// Moves a group to the place of another. Tells whether both are there.
    pub fn move_rule_to(&mut self, name: &str, to: &str) -> (r: bool)
        ensures
            r == (position(old(self)@.rules, name@) is Some && position(
                old(self)@.rules,
                to@,
            ) is Some),
            final(self)@ == (DataModel {
                rules: moved(old(self)@.rules, name@, to@),
                ..old(self)@
            }),
    {
        move_to(&mut self.rules, name, to)
    }

    /// Moves a group in front of the others. Tells whether it is there.
    pub fn move_rule_top(&mut self, name: &str) -> (r: bool)
        ensures
            r == (position(old(self)@.rules, name@) is Some),
            final(self)@ == (DataModel {
                rules: moved_first(old(self)@.rules, name@),
                ..old(self)@
            }),
    {
        move_first(&mut self.rules, name)
    }

    /// Forgets a group that was removed. Tells whether it was there.
    pub fn drop_recycled_rule(&mut self, name: &str) -> (r: bool)
        ensures
            r == (position(old(self)@.rules_recycle, name@) is Some),
            final(self)@ == (DataModel {
                rules_recycle: without_named(old(self)@.rules_recycle, name@),
                ..old(self)@
            }),
    {
        drop_item(&mut self.rules_recycle, name)
    }

    /// Saves a value, which is made where there is none. Tells whether it is new.
    pub fn add_value(&mut self, name: &str, data: &str) -> (r: bool)
        ensures
            r == (position(old(self)@.values, name@) is None),
            final(self)@ == (DataModel {
                values: with_item(old(self)@.values, name@, data@),
                ..old(self)@
            }),
    {
        put_item(&mut self.values, name, data)
    }

    /// Removes a value, which is kept among those that were removed. Tells whether it was there.
    pub fn remove_value(&mut self, name: &str) -> (r: bool)
        ensures
            r == (position(old(self)@.values, name@) is Some),
            final(self)@ == value_removed(old(self)@, name@),
    {
        recycle_item(&mut self.values, &mut self.values_recycle, name)
    }

    /// Gives a value another name. Tells whether this was done: the value has to be there, and
    /// the other name has to be free.
    pub fn rename_value(&mut self, from: &str, to: &str) -> (r: bool)
        ensures
            r == can_rename(old(self)@.values, from@, to@),
            final(self)@ == (DataModel {
                values: renamed(old(self)@.values, from@, to@),
                ..old(self)@
            }),
    {
        rename_item(&mut self.values, from, to)
    }

    /// Moves a value to the place of another. Tells whether both are there.
    pub fn move_value_to(&mut self, name: &str, to: &str) -> (r: bool)
        ensures
            r == (position(old(self)@.values, name@) is Some && position(
                old(self)@.values,
                to@,
            ) is Some),
            final(self)@ == (DataModel {
                values: moved(old(self)@.values, name@, to@),
                ..old(self)@
            }),
    {
        move_to(&mut self.values, name, to)
    }

    /// Forgets a value that was removed. Tells whether it was there.
    pub fn drop_recycled_value(&mut self, name: &str) -> (r: bool)
        ensures
            r == (position(old(self)@.values_recycle, name@) is Some),
            final(self)@ == (DataModel {
                values_recycle: without_named(old(self)@.values_recycle, name@),
                ..old(self)@
            }),
    {
        drop_item(&mut self.values_recycle, name)
    }
}

/// The texts that are not blank, one per line.
fn join_not_blank(parts: &Vec<&str>) -> (r: String)
    ensures
        r@ == seqs::join(not_blank(seqs::slices(parts@)), "\n"@),
{
    let ghost all = seqs::slices(parts@);
    let ghost keep = |b: Seq<char>| seqs::trim(b).len() > 0;
    let mut out: Vec<&str> = Vec::new();
    let mut i: usize = 0;
    proof {
        reveal(Seq::filter);
        assert(seqs::slices(out@) =~= all.take(0).filter(keep));
    }
    while i < parts.len()
        invariant
            i <= parts.len(),
            all == seqs::slices(parts@),
            keep == (|b: Seq<char>| seqs::trim(b).len() > 0),
            seqs::slices(out@) == all.take(i as int).filter(keep),
        decreases parts.len() - i,
    {
        let ghost now = seqs::slices(out@);
        proof {
            seqs::lemma_filter_step(all, i as int, keep);
        }
        if !text::trim(parts[i]).is_empty() {
            out.push(parts[i]);
            proof {
                assert(seqs::slices(out@) =~= now.push(all[i as int]));
            }
        }
        i += 1;
    }
    proof {
        assert(all.take(all.len() as int) =~= all);
    }
    text::join(&out, "\n")
}

/// A group is removed, and kept among those that were.
pub open spec fn rule_removed(d: DataModel, name: Seq<char>) -> DataModel {
    match position(d.rules, name) {
        Some(i) => DataModel {
            rules: d.rules.remove(i),
            rules_recycle: recycled(d.rules_recycle, d.rules[i]),
            ..d
        },
        None => d,
    }
}

/// A value is removed, and kept among those that were.
pub open spec fn value_removed(d: DataModel, name: Seq<char>) -> DataModel {
    match position(d.values, name) {
        Some(i) => DataModel {
            values: d.values.remove(i),
            values_recycle: recycled(d.values_recycle, d.values[i]),
            ..d
        },
        None => d,
    }
}

/// A group is chosen, and no other unless several can be.
pub open spec fn rule_selected(d: DataModel, name: Seq<char>) -> DataModel {
    match position(d.rules, name) {
        Some(i) => DataModel { rules: with_chosen(d.rules, i, d.allow_multiple_choice), ..d },
        None => d,
    }
}

/// A group is not chosen.
pub open spec fn rule_unselected(d: DataModel, name: Seq<char>) -> DataModel {
    match position(d.rules, name) {
        Some(i) => DataModel {
            rules: d.rules.update(i, ItemModel { selected: false, ..d.rules[i] }),
            ..d
        },
        None => d,
    }
}

/// Of the groups that are chosen only the last stays so.
pub open spec fn last_choice_kept(d: DataModel) -> DataModel {
    if chosen(d.rules).len() > 0 {
        DataModel { rules: with_only(d.rules, chosen(d.rules).last().name), ..d }
    } else {
        d
    }
}

// ---- laws ----

/// A text that was saved is read back under its name, the other items stay as they are, and no
/// name is there twice.
pub proof fn law_saved_is_read_back(list: Seq<ItemModel>, name: Seq<char>, data: Seq<char>)
    requires
        distinct(list),
    ensures
        distinct(with_item(list, name, data)),
        position(with_item(list, name, data), name) matches Some(i) && with_item(
            list,
            name,
            data,
        )[i].data == data,
        forall|k: int|
            0 <= k < list.len() && (#[trigger] list[k]).name != name ==> with_item(
                list,
                name,
                data,
            )[k] == list[k],
{
    let after = with_item(list, name, data);
    lemma_position_from(list, name, 0);
    lemma_position_from(after, name, 0);
    match position(list, name) {
        Some(i) => {
            assert(after[i].name == name);
            assert forall|a: int,
                b: int| 0 <= a < b < after.len() implies (#[trigger] after[a]).name
                != (#[trigger] after[b]).name by {
                assert(list[a].name != list[b].name);
            }
            let j = position(after, name)->0;
            if j < i {
                assert(after[j].name != after[i].name);
            }
            if i < j {
                assert(after[i].name != after[j].name);
            }
        },
        None => {
            assert(after[list.len() as int].name == name);
            let j = position(after, name)->0;
            if j < list.len() {
                assert(after[j] == list[j]);
            }
            assert forall|a: int,
                b: int| 0 <= a < b < after.len() implies (#[trigger] after[a]).name
                != (#[trigger] after[b]).name by {
                assert(after[a] == list[a]);
                if b < list.len() {
                    assert(after[b] == list[b]);
                }
            }
        },
    }
}

/// An item that was removed is gone, and the other names are there once each.
pub proof fn law_removed_is_gone(list: Seq<ItemModel>, name: Seq<char>)
    requires
        distinct(list),
    ensures
        position(without_item(list, name), name) is None,
        distinct(without_item(list, name)),
{
    let after = without_item(list, name);
    lemma_position_from(list, name, 0);
    lemma_position_from(after, name, 0);
    if let Some(i) = position(list, name) {
        assert forall|k: int| 0 <= k < after.len() implies (#[trigger] after[k]).name != name by {
            if k < i {
                assert(after[k] == list[k]);
                assert(list[k].name != list[i].name);
            } else {
                assert(after[k] == list[k + 1]);
                assert(list[i].name != list[k + 1].name);
            }
        }
        assert forall|a: int,
            b: int| 0 <= a < b < after.len() implies (#[trigger] after[a]).name != (
        #[trigger] after[b]).name by {
            let x = if a < i {
                a
            } else {
                a + 1
            };
            let y = if b < i {
                b
            } else {
                b + 1
            };
            assert(after[a] == list[x] && after[b] == list[y]);
        }
    }
}

/// A group or a value that was removed is the latest of those that were, of which there are never
/// too many.
pub proof fn law_removed_is_kept(d: DataModel, name: Seq<char>)
    ensures
        position(d.rules, name) is Some && d.rules_recycle.len() <= RECYCLE_LIMIT ==> {
            let bin = rule_removed(d, name).rules_recycle;
            0 < bin.len() <= RECYCLE_LIMIT && bin.last() == d.rules[position(
                d.rules,
                name,
            )->0]
        },
        position(d.values, name) is Some && d.values_recycle.len() <= RECYCLE_LIMIT ==> {
            let bin = value_removed(d, name).values_recycle;
            0 < bin.len() <= RECYCLE_LIMIT && bin.last() == d.values[position(
                d.values,
                name,
            )->0]
        },
{
    if let Some(i) = position(d.rules, name) {
        lemma_without_named(d.rules_recycle, d.rules[i].name);
    }
    if let Some(i) = position(d.values, name) {
        lemma_without_named(d.values_recycle, d.values[i].name);
    }
}

proof fn lemma_without_named(list: Seq<ItemModel>, name: Seq<char>)
    ensures
        without_named(list, name).len() <= list.len(),
        forall|k: int|
            0 <= k < without_named(list, name).len() ==> (#[trigger] without_named(
                list,
                name,
            )[k]).name != name && list.contains(without_named(list, name)[k]),
        distinct(list) ==> distinct(without_named(list, name)),
    decreases list.len(),
{
    reveal(Seq::filter);
    if list.len() > 0 {
        let shorter = list.drop_last();
        let before = without_named(shorter, name);
        let after = without_named(list, name);
        lemma_without_named(shorter, name);
        assert(list[list.len() - 1] == list.last());
        assert forall|k: int| 0 <= k < after.len() implies (#[trigger] after[k]).name != name
            && list.contains(after[k]) by {
            if k < before.len() {
                assert(after[k] == before[k]);
                let j = choose|j: int| 0 <= j < shorter.len() && shorter[j] == before[k];
                assert(list[j] == before[k]);
            }
        }
        if distinct(list) {
            assert forall|a: int, b: int| 0 <= a < b < shorter.len() implies (
            #[trigger] shorter[a]).name != (#[trigger] shorter[b]).name by {
                assert(list[a].name != list[b].name);
            }
            assert forall|a: int, b: int| 0 <= a < b < after.len() implies (
            #[trigger] after[a]).name != (#[trigger] after[b]).name by {
                assert(after[a] == before[a]);
                if b < before.len() {
                    assert(after[b] == before[b]);
                } else {
                    let j = choose|j: int| 0 <= j < shorter.len() && shorter[j] == before[a];
                    assert(before[a].name == list[j].name);
                    assert(list[j].name != list[list.len() - 1].name);
                }
            }
        }
    }
}

/// A removed item that was forgotten is not there any more, under any copy of its name, and no
/// other name changes.
pub proof fn law_forgotten_is_gone(bin: Seq<ItemModel>, name: Seq<char>, other: Seq<char>)
    requires
        other != name,
    ensures
        position(without_named(bin, name), name) is None,
        !names(without_named(bin, name)).contains(name),
        without_named(bin, name).filter(|i: ItemModel| i.name == other) == bin.filter(
            |i: ItemModel| i.name == other,
        ),
    decreases bin.len(),
{
    let after = without_named(bin, name);
    lemma_without_named(bin, name);
    lemma_position_from(after, name, 0);
    if names(after).contains(name) {
        let k = choose|k: int| 0 <= k < names(after).len() && names(after)[k] == name;
        assert(after[k].name == name);
    }
    reveal(Seq::filter);
    if bin.len() > 0 {
        law_forgotten_is_gone(bin.drop_last(), name, other);
        let before = without_named(bin.drop_last(), name);
        if bin.last().name != name {
            assert(after.drop_last() =~= before);
            assert(after.last() == bin.last());
        }
    }
}

/// No name is twice among the removed items, whatever is removed or forgotten.
pub proof fn law_removed_names_stay_unique(d: DataModel, name: Seq<char>)
    requires
        distinct(d.rules_recycle),
        distinct(d.values_recycle),
    ensures
        distinct(rule_removed(d, name).rules_recycle),
        distinct(value_removed(d, name).values_recycle),
        distinct(without_named(d.rules_recycle, name)),
        distinct(without_named(d.values_recycle, name)),
{
    lemma_without_named(d.rules_recycle, name);
    lemma_without_named(d.values_recycle, name);
    if let Some(i) = position(d.rules, name) {
        lemma_recycled(d.rules_recycle, d.rules[i]);
    }
    if let Some(i) = position(d.values, name) {
        lemma_recycled(d.values_recycle, d.values[i]);
    }
}

proof fn lemma_recycled(bin: Seq<ItemModel>, item: ItemModel)
    requires
        distinct(bin),
    ensures
        distinct(recycled(bin, item)),
{
    lemma_without_named(bin, item.name);
    let others = without_named(bin, item.name);
    let more = others.push(item);
    assert forall|a: int, b: int| 0 <= a < b < more.len() implies (#[trigger] more[a]).name != (
    #[trigger] more[b]).name by {
        assert(more[a] == others[a]);
        if b < others.len() {
            assert(more[b] == others[b]);
        }
    }
    if more.len() > RECYCLE_LIMIT {
        let less = more.remove(0);
        assert forall|a: int, b: int| 0 <= a < b < less.len() implies (#[trigger] less[a]).name != (
        #[trigger] less[b]).name by {
            assert(less[a] == more[a + 1] && less[b] == more[b + 1]);
        }
    }
}

/// An item that got another name has it, with its text, and giving it the old name back undoes
/// the change.
pub proof fn law_renaming_is_undone(list: Seq<ItemModel>, from: Seq<char>, to: Seq<char>)
    requires
        distinct(list),
        can_rename(list, from, to),
    ensures
        distinct(renamed(list, from, to)),
        can_rename(renamed(list, from, to), to, from),
        renamed(renamed(list, from, to), to, from) == list,
{
    let once = renamed(list, from, to);
    lemma_position_from(list, from, 0);
    lemma_position_from(list, to, 0);
    lemma_position_from(once, from, 0);
    lemma_position_from(once, to, 0);
    let i = position(list, from)->0;
    assert(once[i].name == to);
    assert forall|a: int, b: int| 0 <= a < b < once.len() implies (#[trigger] once[a]).name != (
    #[trigger] once[b]).name by {
        assert(list[a].name != list[b].name);
        assert(list[a].name != to && list[b].name != to);
    }
    assert forall|k: int| 0 <= k < once.len() implies (#[trigger] once[k]).name != from by {
        if k != i {
            assert(once[k] == list[k]);
            if k < i {
                assert(list[k].name != list[i].name);
            } else {
                assert(list[i].name != list[k].name);
            }
        } else {
            assert(list[i].name != to);
        }
    }
    let j = position(once, to)->0;
    if j < i {
        assert(once[j].name != once[i].name);
    }
    if i < j {
        assert(once[i].name != once[j].name);
    }
    assert(renamed(once, to, from) =~= list);
}

/// An item that was moved to the place of another stands there, and nothing else has changed but
/// the order.
pub proof fn law_moved_takes_the_place(list: Seq<ItemModel>, name: Seq<char>, to: Seq<char>)
    requires
        position(list, name) is Some,
        position(list, to) is Some,
    ensures
        moved(list, name, to).len() == list.len(),
        moved(list, name, to)[position(list, to)->0] == list[position(list, name)->0],
        moved(list, name, to).to_multiset() == list.to_multiset(),
{
    let i = position(list, name)->0;
    let j = position(list, to)->0;
    lemma_position_from(list, name, 0);
    lemma_position_from(list, to, 0);
    let rest = list.remove(i);
    broadcast use vstd::seq_lib::group_to_multiset_ensures;

    assert(rest.insert(j, list[i]).to_multiset() == rest.to_multiset().insert(list[i])) by {
        vstd::seq_lib::to_multiset_insert(rest, j, list[i]);
    }
    assert(rest.to_multiset() == list.to_multiset().remove(list[i])) by {
        vstd::seq_lib::to_multiset_remove(list, i);
    }
    assert(list.to_multiset().contains(list[i]));
    assert(moved(list, name, to).to_multiset() =~= list.to_multiset());
}

/// Where the item at a position comes from, once the one at `i` was moved to `j`.
spec fn origin(i: int, j: int, k: int) -> int {
    let m = if k < j {
        k
    } else {
        k - 1
    };
    if k == j {
        i
    } else if m < i {
        m
    } else {
        m + 1
    }
}

proof fn lemma_reordered(list: Seq<ItemModel>, i: int, j: int)
    requires
        distinct(list),
        0 <= i < list.len(),
        0 <= j < list.len(),
    ensures
        distinct(list.remove(i).insert(j, list[i])),
{
    let after = list.remove(i).insert(j, list[i]);
    assert forall|a: int, b: int| 0 <= a < b < after.len() implies (#[trigger] after[a]).name != (
    #[trigger] after[b]).name by {
        let x = origin(i, j, a);
        let y = origin(i, j, b);
        assert(after[a] == list[x] && after[b] == list[y]);
        assert(x != y);
        if x < y {
            assert(list[x].name != list[y].name);
        } else {
            assert(list[y].name != list[x].name);
        }
    }
}

/// No name is there twice, whatever is moved or chosen.
pub proof fn law_names_stay_unique(d: DataModel, name: Seq<char>, to: Seq<char>)
    requires
        distinct(d.rules),
    ensures
        distinct(moved(d.rules, name, to)),
        distinct(moved_first(d.rules, name)),
        distinct(rule_selected(d, name).rules),
        distinct(rule_unselected(d, name).rules),
        distinct(last_choice_kept(d).rules),
{
    lemma_position_from(d.rules, name, 0);
    lemma_position_from(d.rules, to, 0);
    if let Some(i) = position(d.rules, name) {
        lemma_reordered(d.rules, i, 0);
        if let Some(j) = position(d.rules, to) {
            lemma_reordered(d.rules, i, j);
        }
    }
    let lists = seq![
        rule_selected(d, name).rules,
        rule_unselected(d, name).rules,
        last_choice_kept(d).rules,
    ];
    assert forall|n: int, a: int, b: int|
        0 <= n < 3 && 0 <= a < b < (#[trigger] lists[n]).len() implies (#[trigger] lists[n][a]).name
        != (#[trigger] lists[n][b]).name by {
        assert(lists[n].len() == d.rules.len());
        assert(lists[n][a].name == d.rules[a].name);
        assert(lists[n][b].name == d.rules[b].name);
    }
    assert(lists[0] == rule_selected(d, name).rules);
    assert(lists[1] == rule_unselected(d, name).rules);
    assert(lists[2] == last_choice_kept(d).rules);
}

/// Where one group can be chosen, the group that was chosen last is the only one.
pub proof fn law_single_choice(d: DataModel, name: Seq<char>)
    requires
        position(d.rules, name) is Some,
        !d.allow_multiple_choice,
    ensures
        chosen(rule_selected(d, name).rules).len() == 1,
        chosen(rule_selected(d, name).rules)[0].name == name,
{
    let i = position(d.rules, name)->0;
    lemma_position_from(d.rules, name, 0);
    let after = rule_selected(d, name).rules;
    lemma_one_chosen(after, i);
}

proof fn lemma_one_chosen(list: Seq<ItemModel>, i: int)
    requires
        0 <= i < list.len(),
        list[i].selected,
        forall|k: int| 0 <= k < list.len() && k != i ==> !(#[trigger] list[k]).selected,
    ensures
        chosen(list) == seq![list[i]],
    decreases list.len(),
{
    reveal(Seq::filter);
    let keep = |x: ItemModel| x.selected;
    let rest = list.drop_last();
    if i == list.len() - 1 {
        lemma_none_chosen(rest);
        assert(list.filter(keep) =~= rest.filter(keep).push(list[i]));
        assert(chosen(list) =~= seq![list[i]]);
    } else {
        assert forall|k: int| 0 <= k < rest.len()
            && k != i implies !(#[trigger] rest[k]).selected by {
            assert(rest[k] == list[k]);
        }
        lemma_one_chosen(rest, i);
        assert(!list.last().selected) by {
            assert(list.last() == list[list.len() - 1]);
        }
        assert(list.filter(keep) =~= rest.filter(keep));
    }
}

proof fn lemma_none_chosen(list: Seq<ItemModel>)
    requires
        forall|k: int| 0 <= k < list.len() ==> !(#[trigger] list[k]).selected,
    ensures
        chosen(list).len() == 0,
    decreases list.len(),
{
    reveal(Seq::filter);
    if list.len() > 0 {
        let rest = list.drop_last();
        assert forall|k: int| 0 <= k < rest.len() implies !(#[trigger] rest[k]).selected by {
            assert(rest[k] == list[k]);
        }
        lemma_none_chosen(rest);
        assert(!list.last().selected) by {
            assert(list.last() == list[list.len() - 1]);
        }
    }
}

/// Where several groups can be chosen, choosing one leaves the others as they are.
pub proof fn law_several_choices(d: DataModel, name: Seq<char>, k: int)
    requires
        d.allow_multiple_choice,
        0 <= k < d.rules.len(),
        d.rules[k].name != name,
    ensures
        rule_selected(d, name).rules[k] == d.rules[k],
{
    lemma_position_from(d.rules, name, 0);
}

/// With all rules switched off, none hold.
pub proof fn law_all_rules_off(d: DataModel)
    requires
        d.disabled_all_rules,
    ensures
        effective(d).len() == 0,
{
}

/// With the default rules switched off and no group chosen, none hold.
pub proof fn law_nothing_chosen(d: DataModel)
    requires
        d.default_disabled,
        chosen(d.rules).len() == 0,
    ensures
        effective(d).len() == 0,
{
    reveal(Seq::filter);
    assert(blocks(d) =~= seq![]);
    assert(not_blank(blocks(d)).len() == 0);
}

/// What is saved under a new name comes last and is not chosen. Under a name that is there it takes
/// the place of the text, and whether it is chosen stays.
pub proof fn law_saved_stands_in_its_place(
    list: Seq<ItemModel>,
    name: Seq<char>,
    data: Seq<char>,
)
    ensures
        position(list, name) is None ==> with_item(list, name, data) == list + seq![
            ItemModel { name, data, selected: false },
        ],
        position(list, name) matches Some(i) ==> with_item(list, name, data).len() == list.len()
            && with_item(list, name, data)[i].name == name && with_item(list, name, data)[i].data
            == data && with_item(list, name, data)[i].selected == list[i].selected,
{
    lemma_position_from(list, name, 0);
    let item = ItemModel { name, data, selected: false };
    assert(list.push(item) =~= list + seq![item]);
}

/// What is removed leaves the others in their order.
pub proof fn law_removed_leaves_the_others(
    before: Seq<ItemModel>,
    item: ItemModel,
    after: Seq<ItemModel>,
    name: Seq<char>,
)
    requires
        distinct(before + seq![item] + after),
    ensures
        without_item(before + seq![item] + after, item.name) == before + after,
        position(before, name) is None ==> without_item(before, name) == before,
{
    let list = before + seq![item] + after;
    let n = before.len() as int;
    lemma_position_from(list, item.name, 0);
    assert(list[n] == item);
    let k = position(list, item.name)->0;
    if k != n {
        assert(list[k].name == list[n].name);
    }
    assert(list.remove(n) =~= before + after);
}

/// What is moved stands where it was moved to, and the others keep their order among themselves.
/// What is moved to the front stands first.
pub proof fn law_moving_keeps_the_order_of_the_others(
    list: Seq<ItemModel>,
    name: Seq<char>,
    to: Seq<char>,
)
    requires
        position(list, name) is Some,
    ensures
        position(list, to) matches Some(j) ==> moved(list, name, to).remove(j) == list.remove(
            position(list, name)->0,
        ),
        position(list, to) is None ==> moved(list, name, to) == list,
        moved_first(list, name).len() == list.len(),
        moved_first(list, name)[0] == list[position(list, name)->0],
        moved_first(list, name).skip(1) == list.remove(position(list, name)->0),
{
    lemma_position_from(list, name, 0);
    lemma_position_from(list, to, 0);
    let i = position(list, name)->0;
    if let Some(j) = position(list, to) {
        assert(moved(list, name, to).remove(j) =~= list.remove(i));
    }
    assert(moved_first(list, name).skip(1) =~= list.remove(i));
}

/// A removed item comes last in the bin. The bin holds 64 items, and the oldest leaves where there
/// would be more.
pub proof fn law_bin_forgets_the_oldest(bin: Seq<ItemModel>, item: ItemModel)
    requires
        position(bin, item.name) is None,
    ensures
        bin.len() < 64 ==> recycled(bin, item) == bin + seq![item],
        bin.len() == 64 ==> recycled(bin, item) == bin.skip(1) + seq![item],
{
    lemma_position_from(bin, item.name, 0);
    let keep = |i: ItemModel| i.name != item.name;
    assert forall|k: int| 0 <= k < bin.len() implies keep(#[trigger] bin[k]) by {}
    seqs::lemma_keep_all(bin, keep);
    assert(without_named(bin, item.name) == bin);
    assert(bin.push(item) =~= bin + seq![item]);
    if bin.len() == 64 {
        assert(bin.push(item).remove(0) =~= bin.skip(1) + seq![item]);
    }
}

/// To take the choice back changes nothing but the choice of that item, and to keep the last choice
/// leaves one item chosen: the last one that was.
pub proof fn law_choices_are_taken_back(d: DataModel, name: Seq<char>, k: int)
    requires
        0 <= k < d.rules.len(),
        distinct(d.rules),
    ensures
        rule_unselected(d, name).rules.len() == d.rules.len(),
        d.rules[k].name == name ==> rule_unselected(d, name).rules[k] == (ItemModel {
            selected: false,
            ..d.rules[k]
        }),
        d.rules[k].name != name ==> rule_unselected(d, name).rules[k] == d.rules[k],
        chosen(d.rules).len() > 0 ==> (last_choice_kept(d).rules[k].selected <==> d.rules[k].name
            == chosen(d.rules).last().name),
        chosen(d.rules).len() == 0 ==> last_choice_kept(d) == d,
        last_choice_kept(d).rules.len() == d.rules.len(),
        last_choice_kept(d).rules[k].name == d.rules[k].name,
        last_choice_kept(d).rules[k].data == d.rules[k].data,
{
    lemma_position_from(d.rules, name, 0);
    if let Some(i) = position(d.rules, name) {
        if d.rules[k].name == name && i != k {
            assert(d.rules[i].name == d.rules[k].name);
        }
    }
}

/// Chosen are the items that were chosen, in the order of the list.
pub proof fn law_chosen_items_keep_their_order(list: Seq<ItemModel>, item: ItemModel)
    ensures
        chosen(Seq::empty()) == Seq::<ItemModel>::empty(),
        chosen(list.push(item)) == if item.selected {
            chosen(list).push(item)
        } else {
            chosen(list)
        },
{
    reveal(Seq::filter);
    assert(list.push(item).drop_last() =~= list);
    assert(chosen(Seq::empty()) =~= Seq::<ItemModel>::empty());
}

/// The rules that apply are the default rules and those of the chosen groups, each from a line of its
/// own on. The default rules stand first, or last where they were asked to; they are left out where
/// they are off, and so is every text that is blank.
#[verifier::spinoff_prover]
#[verifier::rlimit(30)]
pub proof fn law_rules_that_apply(d: DataModel)
    requires
        !d.disabled_all_rules,
        chosen(d.rules).len() == 1,
    ensures
        ({
            let group = chosen(d.rules)[0].data;
            let on = !d.default_disabled && seqs::trim(d.default_rules).len() > 0;
            let full = seqs::trim(group).len() > 0;
            effective(d) == if on && full {
                if d.back_rules_first {
                    group + seq!['\n'] + d.default_rules
                } else {
                    d.default_rules + seq!['\n'] + group
                }
            } else if on {
                d.default_rules
            } else if full {
                group
            } else {
                seq![]
            }
        }),
{
    reveal_strlit("\n");
    assert("\n"@ =~= seq!['\n']);
    let none = Seq::<char>::empty();
    seqs::law_trim_takes_white_space_off(none, none, none);
    assert(none + none + none =~= none);
    let first = d.default_rules;
    if first.len() == 0 {
        assert(first =~= none);
    }
    let group = chosen(d.rules)[0].data;
    let own = !d.default_disabled && first.len() > 0;
    let list = if !own {
        seq![group]
    } else if d.back_rules_first {
        seq![group, first]
    } else {
        seq![first, group]
    };
    assert(blocks(d) == list) by {
        let groups = Seq::new(chosen(d.rules).len(), |i: int| chosen(d.rules)[i].data);
        law_blocks_are_in_order(d);
        assert(groups =~= seq![group]);
        assert(groups.push(first) =~= seq![group, first]);
        assert(seq![first] + groups =~= seq![first, group]);
    }
    assert(effective(d) == seqs::join(not_blank(list), "\n"@)) by {
        law_blocks_are_in_order(d);
    }
    if own && d.back_rules_first {
        lemma_not_blank_pair(group, first);
    } else {
        lemma_not_blank_pair(first, group);
        lemma_not_blank_pair(group, first);
    }
}

proof fn lemma_not_blank_pair(a: Seq<char>, b: Seq<char>)
    ensures
        ({
            let sep = "\n"@;
            let one = if seqs::trim(a).len() > 0 {
                seq![a]
            } else {
                seq![]
            };
            let two = if seqs::trim(b).len() > 0 {
                one.push(b)
            } else {
                one
            };
            &&& not_blank(seq![a]) == one
            &&& not_blank(seq![a, b]) == two
            &&& seqs::join(Seq::<Seq<char>>::empty(), sep) == Seq::<char>::empty()
            &&& seqs::join(seq![a], sep) == a
            &&& seqs::join(Seq::empty().push(b), sep) == b
            &&& seqs::join(seq![a].push(b), sep) == a + sep + b
        }),
{
    reveal(Seq::filter);
    let keep = |t: Seq<char>| seqs::trim(t).len() > 0;
    let none = Seq::<Seq<char>>::empty();
    assert(none.filter(keep) =~= none);
    assert(seq![a].drop_last() =~= none);
    assert(seq![a].last() == a);
    assert(seq![a, b].drop_last() =~= seq![a]);
    assert(seq![a, b].last() == b);
    assert(not_blank(seq![a]) =~= if seqs::trim(a).len() > 0 {
        seq![a]
    } else {
        seq![]
    });
    seqs::law_parts_are_joined_in_order(seq![a], "\n"@, b);
    seqs::law_parts_are_joined_in_order(none, "\n"@, a);
    assert(none.push(b) =~= seq![b]);
}

/// The texts that are joined to the rules that apply are those of all chosen groups, in order, with
/// the default rules before or behind them.
pub proof fn law_blocks_are_in_order(d: DataModel)
    ensures
        ({
            let groups = Seq::new(chosen(d.rules).len(), |i: int| chosen(d.rules)[i].data);
            let own = !d.default_disabled && d.default_rules.len() > 0;
            blocks(d) == if !own {
                groups
            } else if d.back_rules_first {
                groups.push(d.default_rules)
            } else {
                seq![d.default_rules] + groups
            }
        }),
        !d.disabled_all_rules ==> effective(d) == seqs::join(not_blank(blocks(d)), seq!['\n']),
{
    reveal_strlit("\n");
    assert("\n"@ =~= seq!['\n']);
    let groups = Seq::new(chosen(d.rules).len(), |i: int| chosen(d.rules)[i].data);
    assert(chosen(d.rules).map_values(|i: ItemModel| i.data) =~= groups);
    let own = !d.default_disabled && d.default_rules.len() > 0;
    assert(blocks(d) =~= if !own {
        groups
    } else if d.back_rules_first {
        groups.push(d.default_rules)
    } else {
        seq![d.default_rules] + groups
    });
}

} // verus!
