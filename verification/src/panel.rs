//! What the editor of the dashboard asks for, and what it is answered.
use crate::config;
use crate::form;
use crate::form::Params;
use crate::routes;
use crate::routes::Endpoint;
use crate::rules::RuleModel;
use crate::rules::RuleSet;
use crate::seqs;
use crate::sources;
use crate::store;
use crate::store::DataModel;
use crate::store::ItemModel;
use crate::store::WhistleData;
use crate::text;
use vstd::prelude::*;

verus! {

/// The file that keeps what was edited.
pub open spec fn data_file(dir: Seq<char>) -> Seq<char> {
    config::joined(dir, "whistle-ui.json"@)
}

/// The file that keeps what was edited.
pub fn data_path(dir: &str) -> (r: String)
    ensures
        r@ == data_file(dir@),
{
    config::join_path(dir, "whistle-ui.json")
}

// ---- rules in use ----

/// The rules and their text once a text was put in their place, with those of the files that it
/// takes in. A text that cannot be read changes nothing.
pub open spec fn replaced(
    rules: Seq<RuleModel>,
    shown: Seq<char>,
    text: Seq<char>,
    taken_in: Seq<Seq<char>>,
) -> (Seq<RuleModel>, Seq<char>) {
    match sources::rules_with(text, taken_in) {
        Ok(set) => (set, text),
        Err(_) => (rules, shown),
    }
}

/// Puts a text in the place of the rules in use; `taken_in` are the contents of the files that it
/// takes in. Gives the number of rules, or the error.
pub fn replace_rules(
    rules: &mut RuleSet,
    shown: &mut String,
    text: &str,
    taken_in: &[String],
) -> (r: Result<usize, crate::pattern::ParseError>)
    ensures
        (final(rules)@, final(shown)@) == replaced(
            old(rules)@,
            old(shown)@,
            text@,
            seqs::texts(taken_in@),
        ),
        match r {
            Ok(n) => sources::rules_with(text@, seqs::texts(taken_in@)) is Ok && n
                == final(rules)@.len(),
            Err(crate::pattern::ParseError::BadRegex { line, .. }) => sources::rules_with(
                text@,
                seqs::texts(taken_in@),
            ) == Err::<Seq<RuleModel>, int>(line as int),
        },
{
    match sources::parse_with(text, taken_in) {
        Ok(set) => {
            let n: usize = set.len();
            *rules = set;
            *shown = text.to_string();
            Ok(n)
        },
        Err(e) => Err(e),
    }
}

/// Puts the rules that hold in use; `taken_in` are the contents of the files that their text takes
/// in. Rules that cannot be read leave those in use as they are.
pub fn apply_rules(
    d: &WhistleData,
    rules: &mut RuleSet,
    shown: &mut String,
    taken_in: &[String],
) -> (r: Result<usize, crate::pattern::ParseError>)
    ensures
        (final(rules)@, final(shown)@) == replaced(
            old(rules)@,
            old(shown)@,
            store::effective(d@),
            seqs::texts(taken_in@),
        ),
        match r {
            Ok(n) => sources::rules_with(store::effective(d@), seqs::texts(taken_in@)) is Ok && n
                == final(rules)@.len(),
            Err(crate::pattern::ParseError::BadRegex { line, .. }) => sources::rules_with(
                store::effective(d@),
                seqs::texts(taken_in@),
            ) == Err::<Seq<RuleModel>, int>(line as int),
        },
{
    let text = d.effective_text();
    replace_rules(rules, shown, text.as_str(), taken_in)
}

/// Rules that cannot be read leave the others in use.
pub proof fn law_bad_rules_change_nothing(
    rules: Seq<RuleModel>,
    shown: Seq<char>,
    text: Seq<char>,
    taken_in: Seq<Seq<char>>,
)
    requires
        sources::rules_with(text, taken_in) is Err,
    ensures
        replaced(rules, shown, text, taken_in) == (rules, shown),
{
}

// ---- groups of rules ----

/// What the choice of groups looks like.
#[derive(Debug)]
pub struct Choice {
    pub default_disabled: bool,
    /// The names of the groups that are chosen.
    pub list: Vec<String>,
}

/// A choice shows the groups that are chosen.
pub open spec fn shows_choice(c: Choice, d: DataModel) -> bool {
    c.default_disabled == d.default_disabled && seqs::texts(c.list@) == store::names(
        store::chosen(d.rules),
    )
}

fn choice_of(d: &WhistleData) -> (r: Choice)
    ensures
        shows_choice(r, d@),
{
    Choice { default_disabled: d.default_disabled, list: d.selected_names() }
}

/// A group is saved, moved to the top and chosen as the form asks. The group `Default` stands for
/// the default rules. A form without a name changes nothing.
pub open spec fn rule_added(d: DataModel, p: Seq<(Seq<char>, Seq<char>)>) -> DataModel {
    let name = form::text_of(p, "name"@);
    let value = form::text_of(p, "value"@);
    let selected = form::is_truthy(p, "selected"@);
    if name.len() == 0 {
        d
    } else {
        let edited = if name == "Default"@ {
            DataModel {
                default_rules: value,
                default_disabled: if selected {
                    false
                } else {
                    d.default_disabled
                },
                ..d
            }
        } else {
            let saved = DataModel { rules: store::with_item(d.rules, name, value), ..d };
            let placed = if form::is_truthy(p, "addToTop"@) {
                DataModel { rules: store::moved_first(saved.rules, name), ..saved }
            } else {
                saved
            };
            if selected {
                store::rule_selected(placed, name)
            } else {
                placed
            }
        };
        match form::value_of(p, "recycleFilename"@) {
            Some(old_name) => DataModel {
                rules_recycle: store::without_named(edited.rules_recycle, old_name),
                ..edited
            },
            None => edited,
        }
    }
}

/// Saves a group. Where it comes from those that were removed, gives the names of the others.
pub fn rules_add(d: &mut WhistleData, p: &Params) -> (r: Option<Vec<String>>)
    ensures
        final(d)@ == rule_added(old(d)@, p@),
        r is Some == (form::text_of(p@, "name"@).len() > 0 && form::value_of(
            p@,
            "recycleFilename"@,
        ) is Some),
        r matches Some(list) ==> seqs::texts(list@) == store::names(final(d)@.rules_recycle),
{
    let name = p.text("name");
    let value = p.text("value");
    let selected = p.truthy("selected");
    if name.as_str().is_empty() {
        return None;
    }
    if text::same(name.as_str(), "Default") {
        d.default_rules = value;
        if selected {
            d.default_disabled = false;
        }
    } else {
        d.add_rule(name.as_str(), value.as_str());
        if p.truthy("addToTop") {
            d.move_rule_top(name.as_str());
        }
        if selected {
            d.select_rule(name.as_str());
        }
    }
    match p.get("recycleFilename") {
        Some(old_name) => {
            d.drop_recycled_rule(old_name);
            Some(store::item_names(&d.rules_recycle))
        },
        None => None,
    }
}

/// The names that a form lists, or the one that it names.
pub open spec fn listed_names(p: Seq<(Seq<char>, Seq<char>)>) -> Seq<Seq<char>> {
    let list = form::values_of(p, "list"@);
    if list.len() > 0 {
        list
    } else {
        match form::value_of(p, "name"@) {
            Some(n) => seq![n],
            None => seq![],
        }
    }
}

fn listed_names_of(p: &Params) -> (r: Vec<String>)
    ensures
        seqs::texts(r@) == listed_names(p@),
{
    let mut list = p.list("list");
    proof {
        assert(seqs::texts(list@).len() == list@.len());
    }
    if list.len() == 0 {
        if let Some(n) = p.get("name") {
            list.push(n.to_string());
            proof {
                assert(seqs::texts(list@) =~= seq![n@]);
            }
        } else {
            proof {
                assert(seqs::texts(list@) =~= seq![]);
            }
        }
    }
    list
}

/// The first `n` of some groups are removed.
pub open spec fn rules_removed(d: DataModel, list: Seq<Seq<char>>, n: int) -> DataModel
    decreases n,
{
    if n <= 0 {
        d
    } else {
        store::rule_removed(rules_removed(d, list, n - 1), list[n - 1])
    }
}

/// Removes the groups that a form lists.
pub fn rules_remove(d: &mut WhistleData, p: &Params)
    ensures
        final(d)@ == rules_removed(old(d)@, listed_names(p@), listed_names(p@).len() as int),
{
    let list = listed_names_of(p);
    let ghost all = seqs::texts(list@);
    let mut i: usize = 0;
    while i < list.len()
        invariant
            i <= list.len(),
            all == seqs::texts(list@),
            d@ == rules_removed(old(d)@, all, i as int),
        decreases list.len() - i,
    {
        d.remove_rule(list[i].as_str());
        i += 1;
    }
}

/// A group gets another name, where the form gives both.
pub open spec fn rule_renamed(d: DataModel, p: Seq<(Seq<char>, Seq<char>)>) -> DataModel {
    match (form::value_of(p, "name"@), form::value_of(p, "newName"@)) {
        (Some(from), Some(to)) => DataModel { rules: store::renamed(d.rules, from, to), ..d },
        _ => d,
    }
}

/// An item can get the name that a form gives: the form gives both names, the old name is there
/// and the new one is free.
pub open spec fn can_rename(list: Seq<ItemModel>, p: Seq<(Seq<char>, Seq<char>)>) -> bool {
    match (form::value_of(p, "name"@), form::value_of(p, "newName"@)) {
        (Some(from), Some(to)) => store::can_rename(list, from, to),
        _ => false,
    }
}

/// Gives a group another name, and tells whether that was done.
pub fn rules_rename(d: &mut WhistleData, p: &Params) -> (r: bool)
    ensures
        r == can_rename(old(d)@.rules, p@),
        final(d)@ == rule_renamed(old(d)@, p@),
{
    if let (Some(from), Some(to)) = (p.get("name"), p.get("newName")) {
        d.rename_rule(from, to)
    } else {
        false
    }
}

/// A group is saved and chosen. A form without a name changes nothing.
pub open spec fn rule_saved_and_selected(d: DataModel, p: Seq<(Seq<char>, Seq<char>)>) -> DataModel {
    let name = form::text_of(p, "name"@);
    if name.len() == 0 {
        d
    } else {
        store::rule_selected(
            DataModel {
                rules: store::with_item(d.rules, name, form::text_of(p, "value"@)),
                ..d
            },
            name,
        )
    }
}

/// Saves and chooses a group.
pub fn rules_select(d: &mut WhistleData, p: &Params) -> (r: Choice)
    ensures
        final(d)@ == rule_saved_and_selected(old(d)@, p@),
        shows_choice(r, final(d)@),
{
    let name = p.text("name");
    let value = p.text("value");
    if !name.as_str().is_empty() {
        d.add_rule(name.as_str(), value.as_str());
        d.select_rule(name.as_str());
    }
    choice_of(d)
}

/// A group is saved and not chosen. A form without a name changes nothing.
pub open spec fn rule_saved_and_unselected(
    d: DataModel,
    p: Seq<(Seq<char>, Seq<char>)>,
) -> DataModel {
    let name = form::text_of(p, "name"@);
    if name.len() == 0 {
        d
    } else {
        store::rule_unselected(
            DataModel {
                rules: store::with_item(d.rules, name, form::text_of(p, "value"@)),
                ..d
            },
            name,
        )
    }
}

/// Saves a group and makes it not chosen.
pub fn rules_unselect(d: &mut WhistleData, p: &Params) -> (r: Choice)
    ensures
        final(d)@ == rule_saved_and_unselected(old(d)@, p@),
        shows_choice(r, final(d)@),
{
    let name = p.text("name");
    let value = p.text("value");
    if !name.as_str().is_empty() {
        d.add_rule(name.as_str(), value.as_str());
        d.unselect_rule(name.as_str());
    }
    choice_of(d)
}

/// Switches the default rules on, and saves their text where the form has one.
pub fn rules_enable_default(d: &mut WhistleData, p: &Params) -> (r: Choice)
    ensures
        final(d)@ == (DataModel {
            default_rules: match form::value_of(p@, "value"@) {
                Some(v) => v,
                None => old(d)@.default_rules,
            },
            default_disabled: false,
            ..old(d)@
        }),
        shows_choice(r, final(d)@),
{
    if let Some(v) = p.get("value") {
        d.default_rules = v.to_string();
    }
    d.default_disabled = false;
    choice_of(d)
}

/// Switches the default rules off.
pub fn rules_disable_default(d: &mut WhistleData) -> (r: Choice)
    ensures
        final(d)@ == (DataModel { default_disabled: true, ..old(d)@ }),
        shows_choice(r, final(d)@),
{
    d.default_disabled = true;
    choice_of(d)
}

/// Several groups can be chosen, or one. Then only the last choice stays.
pub open spec fn choice_set(d: DataModel, several: bool) -> DataModel {
    let set = DataModel { allow_multiple_choice: several, ..d };
    if several {
        set
    } else {
        store::last_choice_kept(set)
    }
}

/// Says whether several groups can be chosen.
pub fn rules_allow_multiple(d: &mut WhistleData, p: &Params)
    ensures
        final(d)@ == choice_set(old(d)@, form::is_truthy(p@, "allowMultipleChoice"@)),
{
    d.allow_multiple_choice = p.truthy("allowMultipleChoice");
    if !d.allow_multiple_choice {
        d.keep_last_choice();
    }
}

/// Says whether the chosen groups come before the default rules.
pub fn rules_back_first(d: &mut WhistleData, p: &Params)
    ensures
        final(d)@ == (DataModel {
            back_rules_first: form::is_truthy(p@, "backRulesFirst"@),
            ..old(d)@
        }),
{
    d.back_rules_first = p.truthy("backRulesFirst");
}

/// Switches all rules off or on.
pub fn rules_disable_all(d: &mut WhistleData, p: &Params)
    ensures
        final(d)@ == (DataModel {
            disabled_all_rules: form::is_truthy(p@, "disabledAllRules"@),
            ..old(d)@
        }),
{
    d.disabled_all_rules = p.truthy("disabledAllRules");
}

/// A group moves to the top, or to the place of another.
pub open spec fn rule_moved(d: DataModel, p: Seq<(Seq<char>, Seq<char>)>) -> DataModel {
    match (form::value_of(p, "from"@), form::value_of(p, "to"@)) {
        (Some(from), Some(to)) => if form::value_of(p, "toTop"@) == Some("true"@) {
            DataModel { rules: store::moved_first(d.rules, from), ..d }
        } else {
            DataModel { rules: store::moved(d.rules, from, to), ..d }
        },
        _ => d,
    }
}

/// A move of a group can be done: the groups that it speaks of are there.
pub open spec fn rule_can_move(d: DataModel, p: Seq<(Seq<char>, Seq<char>)>) -> bool {
    match (form::value_of(p, "from"@), form::value_of(p, "to"@)) {
        (Some(from), Some(to)) => store::position(d.rules, from) is Some && (form::value_of(
            p,
            "toTop"@,
        ) == Some("true"@) || store::position(d.rules, to) is Some),
        _ => false,
    }
}

/// Moves a group. Tells whether this could be done.
pub fn rules_move_to(d: &mut WhistleData, p: &Params) -> (r: bool)
    ensures
        r == rule_can_move(old(d)@, p@),
        final(d)@ == rule_moved(old(d)@, p@),
{
    match (p.get("from"), p.get("to")) {
        (Some(from), Some(to)) => {
            let top: bool = match p.get("toTop") {
                Some(t) => text::same(t, "true"),
                None => false,
            };
            if top {
                d.move_rule_top(from)
            } else {
                d.move_rule_to(from, to)
            }
        },
        _ => false,
    }
}

/// Forgets a group that was removed. Gives the names of the others.
pub fn rules_recycle_remove(d: &mut WhistleData, p: &Params) -> (r: Vec<String>)
    ensures
        final(d)@ == (DataModel {
            rules_recycle: match form::value_of(p@, "name"@) {
                Some(n) => store::without_named(old(d)@.rules_recycle, n),
                None => old(d)@.rules_recycle,
            },
            ..old(d)@
        }),
        seqs::texts(r@) == store::names(final(d)@.rules_recycle),
{
    if let Some(name) = p.get("name") {
        d.drop_recycled_rule(name);
    }
    store::item_names(&d.rules_recycle)
}

/// A group as it is shown.
#[derive(Debug)]
pub struct RuleItem {
    pub index: usize,
    pub name: String,
    pub data: String,
    pub selected: bool,
}

/// A group as it is shown. A name that begins with a carriage return is a heading: it has no text
/// and is not chosen.
pub open spec fn shows_item(r: RuleItem, index: int, item: ItemModel) -> bool {
    let heading = item.name.len() > 0 && item.name[0] == '\r';
    &&& r.index == index
    &&& r.name@ == item.name
    &&& r.data@ == if heading {
        seq![]
    } else {
        item.data
    }
    &&& r.selected == (item.selected && !heading)
}

/// The groups as they are shown.
pub fn rules_list_items(d: &WhistleData) -> (r: Vec<RuleItem>)
    ensures
        r@.len() == d@.rules.len(),
        forall|i: int| 0 <= i < r@.len() ==> shows_item(#[trigger] r@[i], i, d@.rules[i]),
{
    let mut out: Vec<RuleItem> = Vec::new();
    let mut i: usize = 0;
    while i < d.rules.len()
        invariant
            i <= d.rules.len(),
            out@.len() == i,
            forall|k: int| 0 <= k < i ==> shows_item(#[trigger] out@[k], k, d@.rules[k]),
        decreases d.rules.len() - i,
    {
        let item = &d.rules[i];
        let cs = text::chars_of(item.name.as_str());
        let heading = cs.len() > 0 && cs[0] == '\r';
        let data: String = if heading {
            String::new()
        } else {
            item.data.clone()
        };
        proof {
            assert(heading ==> data@ =~= seq![]);
        }
        out.push(
            RuleItem {
                index: i,
                name: item.name.clone(),
                data,
                selected: item.selected && !heading,
            },
        );
        i += 1;
    }
    out
}

// ---- values ----

/// A value is saved. A form without a name changes nothing.
pub open spec fn value_added(d: DataModel, p: Seq<(Seq<char>, Seq<char>)>) -> DataModel {
    let name = form::text_of(p, "name"@);
    if name.len() == 0 {
        d
    } else {
        let saved = DataModel {
            values: store::with_item(d.values, name, form::text_of(p, "value"@)),
            ..d
        };
        match form::value_of(p, "recycleFilename"@) {
            Some(old_name) => DataModel {
                values_recycle: store::without_named(saved.values_recycle, old_name),
                ..saved
            },
            None => saved,
        }
    }
}

/// Saves a value. Where it comes from those that were removed, gives the names of the others.
pub fn values_add(d: &mut WhistleData, p: &Params) -> (r: Option<Vec<String>>)
    ensures
        final(d)@ == value_added(old(d)@, p@),
        r is Some == (form::text_of(p@, "name"@).len() > 0 && form::value_of(
            p@,
            "recycleFilename"@,
        ) is Some),
        r matches Some(list) ==> seqs::texts(list@) == store::names(final(d)@.values_recycle),
{
    let name = p.text("name");
    let value = p.text("value");
    if name.as_str().is_empty() {
        return None;
    }
    d.add_value(name.as_str(), value.as_str());
    match p.get("recycleFilename") {
        Some(old_name) => {
            d.drop_recycled_value(old_name);
            Some(store::item_names(&d.values_recycle))
        },
        None => None,
    }
}

/// The first `n` of some values are removed.
pub open spec fn values_removed(d: DataModel, list: Seq<Seq<char>>, n: int) -> DataModel
    decreases n,
{
    if n <= 0 {
        d
    } else {
        store::value_removed(values_removed(d, list, n - 1), list[n - 1])
    }
}

/// Removes the values that a form lists.
pub fn values_remove(d: &mut WhistleData, p: &Params)
    ensures
        final(d)@ == values_removed(old(d)@, listed_names(p@), listed_names(p@).len() as int),
{
    let list = listed_names_of(p);
    let ghost all = seqs::texts(list@);
    let mut i: usize = 0;
    while i < list.len()
        invariant
            i <= list.len(),
            all == seqs::texts(list@),
            d@ == values_removed(old(d)@, all, i as int),
        decreases list.len() - i,
    {
        d.remove_value(list[i].as_str());
        i += 1;
    }
}

/// A value gets another name, where the form gives both.
pub open spec fn value_renamed(d: DataModel, p: Seq<(Seq<char>, Seq<char>)>) -> DataModel {
    match (form::value_of(p, "name"@), form::value_of(p, "newName"@)) {
        (Some(from), Some(to)) => DataModel { values: store::renamed(d.values, from, to), ..d },
        _ => d,
    }
}

/// Gives a value another name, and tells whether that was done.
pub fn values_rename(d: &mut WhistleData, p: &Params) -> (r: bool)
    ensures
        r == can_rename(old(d)@.values, p@),
        final(d)@ == value_renamed(old(d)@, p@),
{
    if let (Some(from), Some(to)) = (p.get("name"), p.get("newName")) {
        d.rename_value(from, to)
    } else {
        false
    }
}

/// A value moves to the place of another.
pub open spec fn value_moved(d: DataModel, p: Seq<(Seq<char>, Seq<char>)>) -> DataModel {
    match (form::value_of(p, "from"@), form::value_of(p, "to"@)) {
        (Some(from), Some(to)) => DataModel { values: store::moved(d.values, from, to), ..d },
        _ => d,
    }
}

/// A move of a value can be done: both values are there.
pub open spec fn value_can_move(d: DataModel, p: Seq<(Seq<char>, Seq<char>)>) -> bool {
    match (form::value_of(p, "from"@), form::value_of(p, "to"@)) {
        (Some(from), Some(to)) => store::position(d.values, from) is Some && store::position(
            d.values,
            to,
        ) is Some,
        _ => false,
    }
}

/// Moves a value. Tells whether this could be done.
pub fn values_move_to(d: &mut WhistleData, p: &Params) -> (r: bool)
    ensures
        r == value_can_move(old(d)@, p@),
        final(d)@ == value_moved(old(d)@, p@),
{
    match (p.get("from"), p.get("to")) {
        (Some(from), Some(to)) => d.move_value_to(from, to),
        _ => false,
    }
}

/// Forgets a value that was removed. Gives the names of the others.
pub fn values_recycle_remove(d: &mut WhistleData, p: &Params) -> (r: Vec<String>)
    ensures
        final(d)@ == (DataModel {
            values_recycle: match form::value_of(p@, "name"@) {
                Some(n) => store::without_named(old(d)@.values_recycle, n),
                None => old(d)@.values_recycle,
            },
            ..old(d)@
        }),
        seqs::texts(r@) == store::names(final(d)@.values_recycle),
{
    if let Some(name) = p.get("name") {
        d.drop_recycled_value(name);
    }
    store::item_names(&d.values_recycle)
}

/// The text of a value, or nothing where there is none of that name.
pub fn values_value(d: &WhistleData, key: &str) -> (r: String)
    ensures
        r@ == match store::position(d@.values, key@) {
            Some(i) => d@.values[i].data,
            None => seq![],
        },
{
    match store::item_data(&d.values, key) {
        Some(v) => v,
        None => {
            let r = String::new();
            proof {
                assert(r@ =~= seq![]);
            }
            r
        },
    }
}

// ---- laws ----

/// A group that is saved and chosen is read back under its name, and is chosen.
pub proof fn law_saved_group_is_chosen(d: DataModel, p: Seq<(Seq<char>, Seq<char>)>)
    requires
        store::distinct(d.rules),
        form::text_of(p, "name"@).len() > 0,
    ensures
        ({
            let after = rule_saved_and_selected(d, p);
            store::position(after.rules, form::text_of(p, "name"@)) matches Some(i)
                && after.rules[i].selected && after.rules[i].data == form::text_of(p, "value"@)
        }),
{
    let name = form::text_of(p, "name"@);
    let value = form::text_of(p, "value"@);
    store::law_saved_is_read_back(d.rules, name, value);
    let saved = store::with_item(d.rules, name, value);
    let i = store::position(saved, name)->0;
    store::lemma_position_from(saved, name, 0);
    let after = rule_saved_and_selected(d, p).rules;
    store::lemma_position_from(after, name, 0);
    assert(after[i].name == name);
    let j = store::position(after, name)->0;
    if j < i {
        assert(saved[j].name != saved[i].name);
        assert(after[j].name == saved[j].name);
    }
    if i < j {
        assert(after[i].name == name);
    }
}

/// Where one group can be chosen at a time, that holds from then on: at most one name is chosen.
pub proof fn law_one_choice_is_kept(d: DataModel)
    requires
        store::distinct(d.rules),
    ensures
        forall|a: int, b: int|
            0 <= a < b < choice_set(d, false).rules.len() ==> !((
            #[trigger] choice_set(d, false).rules[a]).selected && (
            #[trigger] choice_set(d, false).rules[b]).selected),
{
    let after = choice_set(d, false).rules;
    if store::chosen(d.rules).len() == 0 {
        assert forall|a: int, b: int| 0 <= a < b < after.len() implies !((
        #[trigger] after[a]).selected && (#[trigger] after[b]).selected) by {
            if after[a].selected {
                let keep = |i: ItemModel| i.selected;
                d.rules.lemma_filter_contains(keep, a);
                assert(d.rules.filter(keep).contains(d.rules[a]));
            }
        }
    } else {
        assert forall|a: int, b: int| 0 <= a < b < after.len() implies !((
        #[trigger] after[a]).selected && (#[trigger] after[b]).selected) by {
            assert(d.rules[a].name != d.rules[b].name);
        }
    }
}

// ---- all edits ----

/// What an edit is answered.
#[derive(Debug)]
pub enum Reply {
    Done,
    /// Whether it was done.
    Outcome(bool),
    Names(Vec<String>),
    Chosen(Choice),
}

/// What an edit is answered.
pub enum ReplyModel {
    Done,
    Outcome(bool),
    Names(Seq<Seq<char>>),
    /// Whether the default rules are switched off, and the names of the chosen groups.
    Chosen(bool, Seq<Seq<char>>),
}

impl View for Reply {
    type V = ReplyModel;

    open spec fn view(&self) -> ReplyModel {
        match *self {
            Reply::Done => ReplyModel::Done,
            Reply::Outcome(ok) => ReplyModel::Outcome(ok),
            Reply::Names(list) => ReplyModel::Names(seqs::texts(list@)),
            Reply::Chosen(c) => ReplyModel::Chosen(c.default_disabled, seqs::texts(c.list@)),
        }
    }
}

/// What was edited, once an endpoint has answered a form.
pub open spec fn edited(d: DataModel, e: Endpoint, p: Seq<(Seq<char>, Seq<char>)>) -> DataModel {
    let listed = listed_names(p);
    match e {
        Endpoint::RulesAdd => rule_added(d, p),
        Endpoint::RulesRemove => rules_removed(d, listed, listed.len() as int),
        Endpoint::RulesRename => rule_renamed(d, p),
        Endpoint::RulesSelect => rule_saved_and_selected(d, p),
        Endpoint::RulesUnselect => rule_saved_and_unselected(d, p),
        Endpoint::RulesEnableDefault => DataModel {
            default_rules: match form::value_of(p, "value"@) {
                Some(v) => v,
                None => d.default_rules,
            },
            default_disabled: false,
            ..d
        },
        Endpoint::RulesDisableDefault => DataModel { default_disabled: true, ..d },
        Endpoint::RulesAllowMultiple => choice_set(d, form::is_truthy(p, "allowMultipleChoice"@)),
        Endpoint::RulesBackFirst => DataModel {
            back_rules_first: form::is_truthy(p, "backRulesFirst"@),
            ..d
        },
        Endpoint::RulesDisableAll => DataModel {
            disabled_all_rules: form::is_truthy(p, "disabledAllRules"@),
            ..d
        },
        Endpoint::RulesMoveTo => rule_moved(d, p),
        Endpoint::RulesRecycleRemove => DataModel {
            rules_recycle: match form::value_of(p, "name"@) {
                Some(n) => store::without_named(d.rules_recycle, n),
                None => d.rules_recycle,
            },
            ..d
        },
        Endpoint::ValuesAdd => value_added(d, p),
        Endpoint::ValuesRemove => values_removed(d, listed, listed.len() as int),
        Endpoint::ValuesRename => value_renamed(d, p),
        Endpoint::ValuesMoveTo => value_moved(d, p),
        Endpoint::ValuesRecycleRemove => DataModel {
            values_recycle: match form::value_of(p, "name"@) {
                Some(n) => store::without_named(d.values_recycle, n),
                None => d.values_recycle,
            },
            ..d
        },
        _ => d,
    }
}

/// A form takes an item out of those that were removed: it names one, and the item that it saves.
pub open spec fn restores(p: Seq<(Seq<char>, Seq<char>)>) -> bool {
    form::text_of(p, "name"@).len() > 0 && form::value_of(p, "recycleFilename"@) is Some
}

/// What the answer to a form is.
pub open spec fn reply_to(d: DataModel, e: Endpoint, p: Seq<(Seq<char>, Seq<char>)>) -> ReplyModel {
    let after = edited(d, e, p);
    match e {
        Endpoint::RulesAdd => if restores(p) {
            ReplyModel::Names(store::names(after.rules_recycle))
        } else {
            ReplyModel::Done
        },
        Endpoint::ValuesAdd => if restores(p) {
            ReplyModel::Names(store::names(after.values_recycle))
        } else {
            ReplyModel::Done
        },
        Endpoint::RulesRename => ReplyModel::Outcome(can_rename(d.rules, p)),
        Endpoint::ValuesRename => ReplyModel::Outcome(can_rename(d.values, p)),
        Endpoint::RulesMoveTo => ReplyModel::Outcome(rule_can_move(d, p)),
        Endpoint::ValuesMoveTo => ReplyModel::Outcome(value_can_move(d, p)),
        Endpoint::RulesSelect
        | Endpoint::RulesUnselect
        | Endpoint::RulesEnableDefault
        | Endpoint::RulesDisableDefault => ReplyModel::Chosen(
            after.default_disabled,
            store::names(store::chosen(after.rules)),
        ),
        Endpoint::RulesRecycleRemove => ReplyModel::Names(store::names(after.rules_recycle)),
        Endpoint::ValuesRecycleRemove => ReplyModel::Names(store::names(after.values_recycle)),
        _ => ReplyModel::Done,
    }
}

fn listing(names: Option<Vec<String>>) -> (r: Reply)
    ensures
        r@ == match names {
            Some(list) => ReplyModel::Names(seqs::texts(list@)),
            None => ReplyModel::Done,
        },
{
    match names {
        Some(list) => Reply::Names(list),
        None => Reply::Done,
    }
}

/// Has an endpoint answer a form. One that edits nothing changes nothing.
pub fn edit(d: &mut WhistleData, e: Endpoint, p: &Params) -> (r: Reply)
    ensures
        final(d)@ == edited(old(d)@, e, p@),
        r@ == reply_to(old(d)@, e, p@),
{
    match e {
        Endpoint::RulesAdd => listing(rules_add(d, p)),
        Endpoint::RulesRemove => {
            rules_remove(d, p);
            Reply::Done
        },
        Endpoint::RulesRename => Reply::Outcome(rules_rename(d, p)),
        Endpoint::RulesSelect => Reply::Chosen(rules_select(d, p)),
        Endpoint::RulesUnselect => Reply::Chosen(rules_unselect(d, p)),
        Endpoint::RulesEnableDefault => Reply::Chosen(rules_enable_default(d, p)),
        Endpoint::RulesDisableDefault => Reply::Chosen(rules_disable_default(d)),
        Endpoint::RulesAllowMultiple => {
            rules_allow_multiple(d, p);
            Reply::Done
        },
        Endpoint::RulesBackFirst => {
            rules_back_first(d, p);
            Reply::Done
        },
        Endpoint::RulesDisableAll => {
            rules_disable_all(d, p);
            Reply::Done
        },
        Endpoint::RulesMoveTo => Reply::Outcome(rules_move_to(d, p)),
        Endpoint::RulesRecycleRemove => Reply::Names(rules_recycle_remove(d, p)),
        Endpoint::ValuesAdd => listing(values_add(d, p)),
        Endpoint::ValuesRemove => {
            values_remove(d, p);
            Reply::Done
        },
        Endpoint::ValuesRename => Reply::Outcome(values_rename(d, p)),
        Endpoint::ValuesMoveTo => Reply::Outcome(values_move_to(d, p)),
        Endpoint::ValuesRecycleRemove => Reply::Names(values_recycle_remove(d, p)),
        _ => Reply::Done,
    }
}

/// Whatever changes what was edited is kept, and whatever changes the rules that hold is applied.
pub proof fn law_edits_are_kept_and_applied(
    d: DataModel,
    e: Endpoint,
    p: Seq<(Seq<char>, Seq<char>)>,
)
    ensures
        !routes::is_kept(e) ==> edited(d, e, p) == d,
        !routes::is_applied(e) ==> store::effective(edited(d, e, p)) == store::effective(d),
{
    let listed = listed_names(p);
    if e == Endpoint::ValuesRemove {
        lemma_values_leave_rules(d, listed, listed.len() as int);
    }
}

proof fn lemma_values_leave_rules(d: DataModel, list: Seq<Seq<char>>, n: int)
    ensures
        store::effective(values_removed(d, list, n)) == store::effective(d),
    decreases n,
{
    if n > 0 {
        lemma_values_leave_rules(d, list, n - 1);
    }
}

/// An edit that was not done has changed nothing.
pub proof fn law_refused_edits_change_nothing(
    d: DataModel,
    e: Endpoint,
    p: Seq<(Seq<char>, Seq<char>)>,
)
    requires
        reply_to(d, e, p) == ReplyModel::Outcome(false),
    ensures
        edited(d, e, p) == d,
{
}

// A list that holds an item under a name.
proof fn lemma_found(list: Seq<ItemModel>, name: Seq<char>, i: int)
    requires
        0 <= i < list.len(),
        list[i].name == name,
        store::distinct(list),
    ensures
        store::position(list, name) == Some(i),
{
    store::lemma_position_from(list, name, 0);
    if let Some(k) = store::position(list, name) {
        if k != i {
            assert(list[k].name == list[i].name);
        }
    }
}

/// A group of rules that is added is there under its name, with its text. It stands first where it
/// was asked to, and is chosen where it was asked to. Nothing but the groups changes, unless a
/// removed one is to be forgotten.
pub proof fn law_added_group_is_there(d: DataModel, p: Seq<(Seq<char>, Seq<char>)>)
    requires
        store::distinct(d.rules),
        form::text_of(p, "name"@).len() > 0,
        form::text_of(p, "name"@) != "Default"@,
    ensures
        ({
            let after = edited(d, Endpoint::RulesAdd, p);
            let name = form::text_of(p, "name"@);
            &&& store::position(after.rules, name) is Some
            &&& ({
                let i = store::position(after.rules, name)->0;
                &&& after.rules[i].name == name
                &&& after.rules[i].data == form::text_of(p, "value"@)
                &&& form::is_truthy(p, "selected"@) ==> after.rules[i].selected
                &&& form::is_truthy(p, "addToTop"@) ==> i == 0
            })
            &&& after.default_rules == d.default_rules
            &&& after.default_disabled == d.default_disabled
            &&& after.values == d.values
            &&& form::value_of(p, "recycleFilename"@) is None ==> after.rules_recycle
                == d.rules_recycle
            &&& form::value_of(p, "recycleFilename"@) matches Some(n) ==> store::position(
                after.rules_recycle,
                n,
            ) is None
        }),
{
    let name = form::text_of(p, "name"@);
    let value = form::text_of(p, "value"@);
    let saved = store::with_item(d.rules, name, value);
    store::law_saved_is_read_back(d.rules, name, value);
    store::lemma_position_from(saved, name, 0);
    let i = store::position(saved, name)->0;
    let first = store::moved_first(saved, name);
    store::law_names_stay_unique(DataModel { rules: saved, ..d }, name, name);
    assert(first[0] == saved[i]);
    lemma_found(first, name, 0);
    let placed = if form::is_truthy(p, "addToTop"@) {
        first
    } else {
        saved
    };
    let at = store::position(placed, name)->0;
    store::law_names_stay_unique(DataModel { rules: placed, ..d }, name, name);
    let picked = store::rule_selected(DataModel { rules: placed, ..d }, name).rules;
    assert(picked[at].name == name);
    lemma_found(picked, name, at);
    if let Some(n) = form::value_of(p, "recycleFilename"@) {
        let other = n.push('-');
        assert(other.len() != n.len());
        store::law_forgotten_is_gone(d.rules_recycle, n, other);
    }
}

/// The default rules are saved under their own name, and are no group. They are switched on where
/// they are chosen.
pub proof fn law_default_rules_are_saved(d: DataModel, p: Seq<(Seq<char>, Seq<char>)>)
    requires
        form::text_of(p, "name"@) == "Default"@,
    ensures
        ({
            let after = edited(d, Endpoint::RulesAdd, p);
            &&& after.default_rules == form::text_of(p, "value"@)
            &&& form::is_truthy(p, "selected"@) ==> !after.default_disabled
            &&& !form::is_truthy(p, "selected"@) ==> after.default_disabled == d.default_disabled
            &&& after.rules == d.rules
        }),
{
    reveal_strlit("Default");
}

/// Groups and values that are removed are gone, all that were listed, or the one that was named.
pub proof fn law_removed_names_are_gone(
    d: DataModel,
    p: Seq<(Seq<char>, Seq<char>)>,
    name: Seq<char>,
)
    requires
        store::distinct(d.rules),
        store::distinct(d.values),
        form::values_of(p, "list"@).contains(name) || (form::values_of(p, "list"@).len() == 0
            && form::value_of(p, "name"@) == Some(name)),
    ensures
        store::position(edited(d, Endpoint::RulesRemove, p).rules, name) is None,
        store::position(edited(d, Endpoint::ValuesRemove, p).values, name) is None,
{
    let list = listed_names(p);
    if form::values_of(p, "list"@).len() == 0 {
        assert(list[0] == name);
    }
    let k = choose|k: int| 0 <= k < list.len() && list[k] == name;
    lemma_removed_rules(d, list, list.len() as int, k);
    lemma_removed_values(d, list, list.len() as int, k);
}

// What is taken out of a list is no more in it, and what was not in it does not come in.
proof fn lemma_taken_out(list: Seq<ItemModel>, name: Seq<char>, other: Seq<char>)
    requires
        store::distinct(list),
    ensures
        ({
            let after = store::without_item(list, name);
            &&& store::distinct(after)
            &&& store::position(after, name) is None
            &&& store::position(list, other) is None ==> store::position(after, other) is None
        }),
{
    store::law_removed_is_gone(list, name);
    let after = store::without_item(list, name);
    store::lemma_position_from(list, name, 0);
    store::lemma_position_from(list, other, 0);
    store::lemma_position_from(after, other, 0);
    if store::position(list, other) is None {
        if let Some(k) = store::position(after, other) {
            let i = store::position(list, name)->0;
            if store::position(list, name) is Some {
                if k < i {
                    assert(after[k] == list[k]);
                } else {
                    assert(after[k] == list[k + 1]);
                }
            }
        }
    }
}

proof fn lemma_removed_rules(d: DataModel, list: Seq<Seq<char>>, n: int, k: int)
    requires
        0 <= n <= list.len(),
        store::distinct(d.rules),
    ensures
        store::distinct(rules_removed(d, list, n).rules),
        0 <= k < n ==> store::position(rules_removed(d, list, n).rules, list[k]) is None,
    decreases n,
{
    if n > 0 {
        lemma_removed_rules(d, list, n - 1, k);
        let before = rules_removed(d, list, n - 1).rules;
        lemma_taken_out(before, list[n - 1], list[k]);
        assert(rules_removed(d, list, n).rules == store::without_item(before, list[n - 1]));
    }
}

proof fn lemma_removed_values(d: DataModel, list: Seq<Seq<char>>, n: int, k: int)
    requires
        0 <= n <= list.len(),
        store::distinct(d.values),
    ensures
        store::distinct(values_removed(d, list, n).values),
        0 <= k < n ==> store::position(values_removed(d, list, n).values, list[k]) is None,
    decreases n,
{
    if n > 0 {
        lemma_removed_values(d, list, n - 1, k);
        let before = values_removed(d, list, n - 1).values;
        lemma_taken_out(before, list[n - 1], list[k]);
        assert(values_removed(d, list, n).values == store::without_item(before, list[n - 1]));
    }
}

/// A group that is renamed keeps its place, its text and its choice under the new name, and so does a
/// value. A name that is taken is refused.
pub proof fn law_renamed_keeps_its_place(
    d: DataModel,
    p: Seq<(Seq<char>, Seq<char>)>,
    from: Seq<char>,
    to: Seq<char>,
)
    requires
        form::value_of(p, "name"@) == Some(from),
        form::value_of(p, "newName"@) == Some(to),
    ensures
        ({
            let after = edited(d, Endpoint::RulesRename, p).rules;
            store::position(d.rules, to) is None && store::position(d.rules, from) is Some ==> ({
                let i = store::position(d.rules, from)->0;
                &&& after.len() == d.rules.len()
                &&& after[i] == (ItemModel { name: to, ..d.rules[i] })
                &&& reply_to(d, Endpoint::RulesRename, p) == ReplyModel::Outcome(true)
            })
        }),
        ({
            let after = edited(d, Endpoint::ValuesRename, p).values;
            store::position(d.values, to) is None && store::position(d.values, from) is Some ==> ({
                let i = store::position(d.values, from)->0;
                &&& after.len() == d.values.len()
                &&& after[i] == (ItemModel { name: to, ..d.values[i] })
                &&& reply_to(d, Endpoint::ValuesRename, p) == ReplyModel::Outcome(true)
            })
        }),
        store::position(d.rules, to) is Some ==> reply_to(d, Endpoint::RulesRename, p)
            == ReplyModel::Outcome(false),
        store::position(d.values, to) is Some ==> reply_to(d, Endpoint::ValuesRename, p)
            == ReplyModel::Outcome(false),
{
    store::lemma_position_from(d.rules, from, 0);
    store::lemma_position_from(d.values, from, 0);
}

/// A group that is selected is there with its text and chosen, and one that is unselected is there
/// with its text and is not.
pub proof fn law_selected_group_is_chosen(d: DataModel, p: Seq<(Seq<char>, Seq<char>)>)
    requires
        store::distinct(d.rules),
        form::text_of(p, "name"@).len() > 0,
    ensures
        ({
            let on = edited(d, Endpoint::RulesSelect, p).rules;
            let off = edited(d, Endpoint::RulesUnselect, p).rules;
            let name = form::text_of(p, "name"@);
            let value = form::text_of(p, "value"@);
            let i = store::position(on, name);
            let j = store::position(off, name);
            &&& i is Some && on[i->0].selected && on[i->0].data == value
            &&& j is Some && !off[j->0].selected && off[j->0].data == value
        }),
{
    let name = form::text_of(p, "name"@);
    let value = form::text_of(p, "value"@);
    let saved = store::with_item(d.rules, name, value);
    store::law_saved_is_read_back(d.rules, name, value);
    store::lemma_position_from(saved, name, 0);
    let k = store::position(saved, name)->0;
    let full = DataModel { rules: saved, ..d };
    store::law_names_stay_unique(full, name, name);
    lemma_found(store::rule_selected(full, name).rules, name, k);
    lemma_found(store::rule_unselected(full, name).rules, name, k);
}

/// Each switch of the dashboard sets what it is named after, and nothing else.
pub proof fn law_switches_set_what_they_name(d: DataModel, p: Seq<(Seq<char>, Seq<char>)>)
    ensures
        edited(d, Endpoint::RulesDisableDefault, p) == (DataModel { default_disabled: true, ..d }),
        !edited(d, Endpoint::RulesEnableDefault, p).default_disabled,
        form::value_of(p, "value"@) matches Some(v) ==> edited(
            d,
            Endpoint::RulesEnableDefault,
            p,
        ).default_rules == v,
        form::value_of(p, "value"@) is None ==> edited(
            d,
            Endpoint::RulesEnableDefault,
            p,
        ).default_rules == d.default_rules,
        edited(d, Endpoint::RulesBackFirst, p).back_rules_first <==> form::is_truthy(
            p,
            "backRulesFirst"@,
        ),
        edited(d, Endpoint::RulesDisableAll, p).disabled_all_rules <==> form::is_truthy(
            p,
            "disabledAllRules"@,
        ),
        edited(d, Endpoint::RulesAllowMultiple, p).allow_multiple_choice <==> form::is_truthy(
            p,
            "allowMultipleChoice"@,
        ),
        edited(d, Endpoint::RulesBackFirst, p).rules == d.rules,
        edited(d, Endpoint::RulesDisableAll, p).rules == d.rules,
        form::is_truthy(p, "allowMultipleChoice"@) ==> edited(
            d,
            Endpoint::RulesAllowMultiple,
            p,
        ).rules == d.rules,
{
}

/// A group is moved to the place of another one, or to the front where it was asked to, and a value
/// to the place of another one. What is not there is not moved.
pub proof fn law_groups_are_moved(
    d: DataModel,
    p: Seq<(Seq<char>, Seq<char>)>,
    from: Seq<char>,
    to: Seq<char>,
)
    requires
        form::value_of(p, "from"@) == Some(from),
        form::value_of(p, "to"@) == Some(to),
        store::position(d.rules, from) is Some && store::position(d.rules, to) is Some,
        store::position(d.values, from) is Some && store::position(d.values, to) is Some,
    ensures
        ({
            let item = d.rules[store::position(d.rules, from)->0];
            let after = edited(d, Endpoint::RulesMoveTo, p).rules;
            let top = form::value_of(p, "toTop"@) == Some(seq!['t', 'r', 'u', 'e']);
            &&& top ==> after[0] == item
            &&& !top ==> after[store::position(d.rules, to)->0] == item
            &&& reply_to(d, Endpoint::RulesMoveTo, p) == ReplyModel::Outcome(true)
        }),
        edited(d, Endpoint::ValuesMoveTo, p).values[store::position(d.values, to)->0]
            == d.values[store::position(d.values, from)->0],
{
    reveal_strlit("true");
    assert("true"@ =~= seq!['t', 'r', 'u', 'e']);
    store::law_moved_takes_the_place(d.rules, from, to);
    store::law_moved_takes_the_place(d.values, from, to);
    store::law_moving_keeps_the_order_of_the_others(d.rules, from, to);
}

/// A value that is added is there under its name, with its text.
pub proof fn law_added_value_is_there(d: DataModel, p: Seq<(Seq<char>, Seq<char>)>)
    requires
        store::distinct(d.values),
        form::text_of(p, "name"@).len() > 0,
    ensures
        ({
            let after = edited(d, Endpoint::ValuesAdd, p).values;
            let i = store::position(after, form::text_of(p, "name"@));
            i is Some && after[i->0].data == form::text_of(p, "value"@)
        }),
{
    store::law_saved_is_read_back(
        d.values,
        form::text_of(p, "name"@),
        form::text_of(p, "value"@),
    );
}

/// What is done to the rules leaves the values, and what is done to the values leaves the rules.
pub proof fn law_rules_and_values_stay_apart(
    d: DataModel,
    e: Endpoint,
    p: Seq<(Seq<char>, Seq<char>)>,
)
    ensures
        e == Endpoint::ValuesAdd || e == Endpoint::ValuesRemove || e == Endpoint::ValuesRename || e
            == Endpoint::ValuesMoveTo || e == Endpoint::ValuesRecycleRemove
                ==> edited(d, e, p).rules
            == d.rules && edited(d, e, p).rules_recycle == d.rules_recycle && edited(
            d,
            e,
            p,
        ).default_rules == d.default_rules,
        e == Endpoint::RulesAdd || e == Endpoint::RulesRemove || e == Endpoint::RulesRename || e
            == Endpoint::RulesSelect || e == Endpoint::RulesUnselect || e == Endpoint::RulesMoveTo
            || e == Endpoint::RulesRecycleRemove ==> edited(d, e, p).values == d.values && edited(
            d,
            e,
            p,
        ).values_recycle == d.values_recycle,
{
    let list = listed_names(p);
    lemma_rules_removed_leave_values(d, list, list.len() as int);
    lemma_values_removed_leave_rules(d, list, list.len() as int);
}

proof fn lemma_rules_removed_leave_values(d: DataModel, list: Seq<Seq<char>>, n: int)
    ensures
        rules_removed(d, list, n).values == d.values,
        rules_removed(d, list, n).values_recycle == d.values_recycle,
    decreases n,
{
    if n > 0 {
        lemma_rules_removed_leave_values(d, list, n - 1);
    }
}

proof fn lemma_values_removed_leave_rules(d: DataModel, list: Seq<Seq<char>>, n: int)
    ensures
        values_removed(d, list, n).rules == d.rules,
        values_removed(d, list, n).rules_recycle == d.rules_recycle,
        values_removed(d, list, n).default_rules == d.default_rules,
    decreases n,
{
    if n > 0 {
        lemma_values_removed_leave_rules(d, list, n - 1);
    }
}

/// A name that is to be forgotten is in the bin no more, and the names that are left are told.
pub proof fn law_forgotten_names_are_told(
    d: DataModel,
    p: Seq<(Seq<char>, Seq<char>)>,
    name: Seq<char>,
)
    requires
        form::value_of(p, "name"@) == Some(name),
    ensures
        store::position(
            edited(d, Endpoint::RulesRecycleRemove, p).rules_recycle,
            name,
        ) is None,
        store::position(
            edited(d, Endpoint::ValuesRecycleRemove, p).values_recycle,
            name,
        ) is None,
        reply_to(d, Endpoint::RulesRecycleRemove, p) == ReplyModel::Names(
            store::names(edited(d, Endpoint::RulesRecycleRemove, p).rules_recycle),
        ),
        reply_to(d, Endpoint::ValuesRecycleRemove, p) == ReplyModel::Names(
            store::names(edited(d, Endpoint::ValuesRecycleRemove, p).values_recycle),
        ),
{
    let other = name.push('-');
    assert(other.len() != name.len());
    store::law_forgotten_is_gone(d.rules_recycle, name, other);
    store::law_forgotten_is_gone(d.values_recycle, name, other);
}

/// What was edited is kept in a file of its own in the directory for data.
pub proof fn law_edits_are_kept_in_their_file(dir: Seq<char>)
    requires
        dir.len() > 0 && dir.last() != '/',
    ensures
        data_file(dir) == dir + seq!['/'] + "whistle-ui.json"@,
{
    reveal_strlit("whistle-ui.json");
    config::law_path_stands_in_its_directory(dir, "whistle-ui.json"@);
}

/// Rules that can be read take the place of those in use, and their text is the one that is shown.
pub proof fn law_good_rules_are_put_in_place(
    rules: Seq<RuleModel>,
    shown: Seq<char>,
    text: Seq<char>,
    taken_in: Seq<Seq<char>>,
    set: Seq<RuleModel>,
)
    requires
        sources::rules_with(text, taken_in) == Ok::<Seq<RuleModel>, int>(set),
    ensures
        replaced(rules, shown, text, taken_in) == (set, text),
{
}

/// An item of the list is shown with its place, its name, its text and its choice. A heading, whose
/// name begins with a carriage return, has neither text nor choice.
pub proof fn law_items_are_shown_as_they_are(r: RuleItem, index: int, item: ItemModel)
    requires
        shows_item(r, index, item),
    ensures
        r.index == index,
        r.name@ == item.name,
        item.name.len() == 0 || item.name[0] != '\r' ==> r.data@ == item.data && r.selected
            == item.selected,
        item.name.len() > 0 && item.name[0] == '\r' ==> r.data@.len() == 0 && !r.selected,
{
}

/// The choice is shown by the names of the chosen groups, in order, and whether the default rules
/// are off.
pub proof fn law_choice_is_shown_by_names(c: Choice, d: DataModel, i: int)
    requires
        shows_choice(c, d),
        0 <= i < store::chosen(d.rules).len(),
    ensures
        c.default_disabled == d.default_disabled,
        seqs::texts(c.list@).len() == store::chosen(d.rules).len(),
        seqs::texts(c.list@)[i] == store::chosen(d.rules)[i].name,
{
}

} // verus!
