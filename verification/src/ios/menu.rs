//! The main menu.
//!
//! The application describes its menus without regard to the platform. They are kept as a tree of
//! nodes with the key equivalents of their items, and the system's menu is built from that tree.
//! An item is known to the system by a number, under which its action is found again when the item
//! is chosen or asked whether it is enabled.

use crate::ios::keys::{equivalent, key_equivalent, KeyEquivalent, KeyModel, Keymap};
use crate::text::{append_decimal, decimal, lemma_decimal_is_injective};
use vstd::prelude::*;

verus! {

/// An action that the system's own text handling can do.
#[derive(Clone, Copy, Debug, PartialEq, Eq, Structural)]
pub enum OsAction {
    Cut,
    Copy,
    Paste,
    SelectAll,
    Undo,
    Redo,
}

/// A menu of the application.
#[derive(Debug)]
pub struct Menu {
    pub name: String,
    pub items: Vec<MenuItem>,
    pub disabled: bool,
}

#[derive(Debug)]
pub enum MenuItem {
    Separator,
    Submenu(Menu),
    /// A menu that the system fills.
    SystemMenu(String),
    Action {
        name: String,
        /// Names the action.
        action: u64,
        os_action: Option<OsAction>,
        checked: bool,
        disabled: bool,
    },
}

/// A message that the system sends to the focused text input.
#[derive(Clone, Copy, Debug, PartialEq, Eq, Structural)]
pub enum OsSelector {
    Cut,
    Copy,
    Paste,
    SelectAll,
}

/// A part of the menu.
#[derive(Debug)]
pub enum Node {
    Separator,
    Submenu { title: String, items: Vec<Node>, disabled: bool },
    Command {
        title: String,
        /// The place of the action in the list of actions.
        index: usize,
        key: Option<KeyEquivalent>,
        checked: bool,
        os_selector: Option<OsSelector>,
    },
}

#[derive(Clone, Copy, Debug, PartialEq, Eq, Structural)]
pub struct ActionEntry {
    pub action: u64,
    pub disabled: bool,
}

/// A part of the menu, as contracts speak of it.
pub enum NodeModel {
    Separator,
    Submenu { title: Seq<char>, items: Seq<NodeModel>, disabled: bool },
    Command {
        title: Seq<char>,
        index: int,
        key: Option<KeyModel>,
        checked: bool,
        os_selector: Option<OsSelector>,
    },
}

pub open spec fn key_model(key: Option<KeyEquivalent>) -> Option<KeyModel> {
    match key {
        Some(key) => Some(key.model()),
        None => None,
    }
}

impl Node {
    pub open spec fn model(self) -> NodeModel
        decreases self,
    {
        match self {
            Node::Separator => NodeModel::Separator,
            Node::Submenu { title, items, disabled } => NodeModel::Submenu {
                title: title@,
                items: node_models(items@),
                disabled,
            },
            Node::Command { title, index, key, checked, os_selector } => NodeModel::Command {
                title: title@,
                index: index as int,
                key: key_model(key),
                checked,
                os_selector,
            },
        }
    }
}

pub open spec fn node_models(nodes: Seq<Node>) -> Seq<NodeModel>
    decreases nodes,
{
    if nodes.len() == 0 {
        seq![]
    } else {
        node_models(nodes.drop_last()).push(nodes.last().model())
    }
}

pub open spec fn selector_of(os_action: Option<OsAction>) -> Option<OsSelector> {
    match os_action {
        Some(OsAction::Cut) => Some(OsSelector::Cut),
        Some(OsAction::Copy) => Some(OsSelector::Copy),
        Some(OsAction::Paste) => Some(OsSelector::Paste),
        Some(OsAction::SelectAll) => Some(OsSelector::SelectAll),
        _ => None,
    }
}

/// The part of the menu for an item, and the list of actions with the item's. A menu that the system
/// fills has no part.
pub open spec fn converted(item: MenuItem, actions: Seq<ActionEntry>, keymap: Keymap) -> (
    Option<NodeModel>,
    Seq<ActionEntry>,
)
    decreases item,
{
    match item {
        MenuItem::Separator => (Some(NodeModel::Separator), actions),
        MenuItem::SystemMenu(_) => (None, actions),
        MenuItem::Submenu(menu) => {
            let (items, after) = converted_all(menu.items@, actions, keymap);
            (
                Some(
                    NodeModel::Submenu { title: menu.name@, items, disabled: menu.disabled },
                ),
                after,
            )
        },
        MenuItem::Action { name, action, os_action, checked, disabled } => (
            Some(
                NodeModel::Command {
                    title: name@,
                    index: actions.len() as int,
                    key: equivalent(keymap, action),
                    checked,
                    os_selector: selector_of(os_action),
                },
            ),
            actions.push(ActionEntry { action, disabled }),
        ),
    }
}

/// The parts of the menu for some items, in order.
pub open spec fn converted_all(
    items: Seq<MenuItem>,
    actions: Seq<ActionEntry>,
    keymap: Keymap,
) -> (Seq<NodeModel>, Seq<ActionEntry>)
    decreases items,
{
    if items.len() == 0 {
        (seq![], actions)
    } else {
        let (nodes, before) = converted_all(items.drop_last(), actions, keymap);
        let (node, after) = converted(items.last(), before, keymap);
        (
            match node {
                Some(node) => nodes.push(node),
                None => nodes,
            },
            after,
        )
    }
}

fn os_selector(os_action: Option<OsAction>) -> (r: Option<OsSelector>)
    ensures
        r == selector_of(os_action),
{
    match os_action {
        Some(OsAction::Cut) => Some(OsSelector::Cut),
        Some(OsAction::Copy) => Some(OsSelector::Copy),
        Some(OsAction::Paste) => Some(OsSelector::Paste),
        Some(OsAction::SelectAll) => Some(OsSelector::SelectAll),
        _ => None,
    }
}

/// The part of the menu for an item. Its action, if it has one, joins the list.
pub fn convert(item: &MenuItem, actions: &mut Vec<ActionEntry>, keymap: &Keymap) -> (r: Option<
    Node,
>)
    ensures
        final(actions)@ == converted(*item, old(actions)@, *keymap).1,
        match r {
            Some(node) => converted(*item, old(actions)@, *keymap).0 == Some(node.model()),
            None => converted(*item, old(actions)@, *keymap).0 is None,
        },
    decreases item,
{
    match item {
        MenuItem::Separator => Some(Node::Separator),
        MenuItem::SystemMenu(_) => None,
        MenuItem::Submenu(menu) => {
            let items = convert_all(&menu.items, actions, keymap);
            Some(Node::Submenu { title: menu.name.clone(), items, disabled: menu.disabled })
        },
        MenuItem::Action { name, action, os_action, checked, disabled } => {
            let index = actions.len();
            actions.push(ActionEntry { action: *action, disabled: *disabled });
            Some(
                Node::Command {
                    title: name.clone(),
                    index,
                    key: key_equivalent(*action, keymap),
                    checked: *checked,
                    os_selector: os_selector(*os_action),
                },
            )
        },
    }
}

fn convert_all(items: &Vec<MenuItem>, actions: &mut Vec<ActionEntry>, keymap: &Keymap) -> (r: Vec<
    Node,
>)
    ensures
        final(actions)@ == converted_all(items@, old(actions)@, *keymap).1,
        node_models(r@) == converted_all(items@, old(actions)@, *keymap).0,
    decreases items,
{
    let mut nodes: Vec<Node> = Vec::new();
    let mut i: usize = 0;
    assert(items@.take(0) =~= Seq::<MenuItem>::empty());
    while i < items.len()
        invariant
            i <= items@.len(),
            actions@ == converted_all(items@.take(i as int), old(actions)@, *keymap).1,
            node_models(nodes@) == converted_all(items@.take(i as int), old(actions)@, *keymap).0,
        decreases items@.len() - i,
    {
        let ghost before = nodes@;
        assert(items@.take(i + 1).drop_last() =~= items@.take(i as int));
        if let Some(node) = convert(&items[i], actions, keymap) {
            nodes.push(node);
            assert(nodes@.drop_last() =~= before);
        }
        i = i + 1;
    }
    assert(items@.take(i as int) =~= items@);
    nodes
}

// ---- the state ---------------------------------------------------------------------------------

#[derive(Debug)]
pub struct Model {
    pub menus: Vec<Node>,
    pub actions: Vec<ActionEntry>,
    /// The menus as they were given.
    pub owned: Option<Vec<Menu>>,
}

/// The menu and the functions that are called for it. A function is named by a number.
#[derive(Debug)]
pub struct State {
    pub model: Model,
    pub menu_command: Option<u64>,
    pub validate_menu_command: Option<u64>,
    pub will_open_menu: Option<u64>,
}

/// The parts of the menu for the application's menus, and their actions.
pub open spec fn converted_menus(menus: Seq<Menu>, keymap: Keymap) -> (
    Seq<NodeModel>,
    Seq<ActionEntry>,
)
    decreases menus.len(),
{
    if menus.len() == 0 {
        (seq![], seq![])
    } else {
        let (nodes, before) = converted_menus(menus.drop_last(), keymap);
        let menu = menus.last();
        let (items, after) = converted_all(menu.items@, before, keymap);
        (
            nodes.push(
                NodeModel::Submenu { title: menu.name@, items, disabled: menu.disabled },
            ),
            after,
        )
    }
}

impl State {
    /// No menus, and no functions.
    pub fn new() -> (r: State)
        ensures
            r.model.menus@.len() == 0,
            r.model.actions@.len() == 0,
            r.model.owned is None,
            r.menu_command is None,
            r.validate_menu_command is None,
            r.will_open_menu is None,
    {
        State {
            model: Model { menus: Vec::new(), actions: Vec::new(), owned: None },
            menu_command: None,
            validate_menu_command: None,
            will_open_menu: None,
        }
    }

    /// Sets the function that runs an action.
    pub fn set_menu_command_callback(&mut self, callback: u64)
        ensures
            *final(self) == (State { menu_command: Some(callback), ..*old(self) }),
    {
        self.menu_command = Some(callback);
    }

    /// Sets the function that says whether an action is available.
    pub fn set_validate_callback(&mut self, callback: u64)
        ensures
            *final(self) == (State { validate_menu_command: Some(callback), ..*old(self) }),
    {
        self.validate_menu_command = Some(callback);
    }

    /// Sets the function that is told of a menu about to open. The system never tells.
    pub fn set_will_open_callback(&mut self, callback: u64)
        ensures
            *final(self) == (State { will_open_menu: Some(callback), ..*old(self) }),
    {
        self.will_open_menu = Some(callback);
    }

    /// The menus as they were given last.
    pub fn owned_menus(&self) -> (r: Option<&Vec<Menu>>)
        ensures
            match r {
                Some(menus) => self.model.owned == Some(*menus),
                None => self.model.owned is None,
            },
    {
        match &self.model.owned {
            Some(menus) => Some(menus),
            None => None,
        }
    }

    /// Keeps the menus in place of those before. The system's menu is then to be built anew.
    pub fn set_menus(&mut self, menus: Vec<Menu>, keymap: &Keymap)
        ensures
            node_models(final(self).model.menus@) == converted_menus(menus@, *keymap).0,
            final(self).model.actions@ == converted_menus(menus@, *keymap).1,
            final(self).model.owned == Some(menus),
            *final(self) == (State { model: final(self).model, ..*old(self) }),
    {
        let mut actions: Vec<ActionEntry> = Vec::new();
        let mut nodes: Vec<Node> = Vec::new();
        let mut i: usize = 0;
        assert(menus@.take(0) =~= Seq::<Menu>::empty());
        assert(actions@ =~= converted_menus(menus@.take(0), *keymap).1);
        while i < menus.len()
            invariant
                i <= menus@.len(),
                actions@ == converted_menus(menus@.take(i as int), *keymap).1,
                node_models(nodes@) == converted_menus(menus@.take(i as int), *keymap).0,
            decreases menus@.len() - i,
        {
            let ghost before = nodes@;
            assert(menus@.take(i + 1).drop_last() =~= menus@.take(i as int));
            let menu = &menus[i];
            let items = convert_all(&menu.items, &mut actions, keymap);
            let ghost list = items@;
            nodes.push(
                Node::Submenu { title: menu.name.clone(), items, disabled: menu.disabled },
            );
            proof {
                assert(nodes@.drop_last() =~= before);
                assert(nodes@.last().model() == (NodeModel::Submenu {
                    title: menu.name@,
                    items: node_models(list),
                    disabled: menu.disabled,
                }));
            }
            i = i + 1;
        }
        assert(menus@.take(i as int) =~= menus@);
        self.model = Model { menus: nodes, actions, owned: Some(menus) };
    }
}

// ---- building ----------------------------------------------------------------------------------

/// What a command does.
#[derive(Clone, Copy, Debug, PartialEq, Eq, Structural)]
pub enum CommandTarget {
    /// The system handles it.
    Os(OsSelector),
    /// The application handles it. The number is the place in the list of actions.
    Item(usize),
}

/// An element of the system's menu.
#[derive(Debug)]
pub enum Element {
    Menu { title: String, children: Vec<Element> },
    /// A group that is set off from its neighbours.
    Inline(Vec<Element>),
    Command { title: String, target: CommandTarget, key: Option<KeyEquivalent>, checked: bool },
}

/// An element of the system's menu, as contracts speak of it.
pub enum ElementModel {
    Menu { title: Seq<char>, children: Seq<ElementModel> },
    Inline(Seq<ElementModel>),
    Command { title: Seq<char>, target: CommandTarget, key: Option<KeyModel>, checked: bool },
}

impl Element {
    pub open spec fn model(self) -> ElementModel
        decreases self,
    {
        match self {
            Element::Menu { title, children } => ElementModel::Menu {
                title: title@,
                children: element_models(children@),
            },
            Element::Inline(children) => ElementModel::Inline(element_models(children@)),
            Element::Command { title, target, key, checked } => ElementModel::Command {
                title: title@,
                target,
                key: key_model(key),
                checked,
            },
        }
    }
}

pub open spec fn element_models(elements: Seq<Element>) -> Seq<ElementModel>
    decreases elements,
{
    if elements.len() == 0 {
        seq![]
    } else {
        element_models(elements.drop_last()).push(elements.last().model())
    }
}

/// The target of a command: where the system handles it, it carries no number.
pub open spec fn target_of(index: usize, os_selector: Option<OsSelector>) -> CommandTarget {
    match os_selector {
        Some(selector) => CommandTarget::Os(selector),
        None => CommandTarget::Item(index),
    }
}

/// The element for a part of the menu. A separator has none.
pub open spec fn element_of(node: Node) -> Option<ElementModel>
    decreases node, 0int,
{
    match node {
        Node::Separator => None,
        Node::Submenu { title, items, .. } => Some(
            ElementModel::Menu { title: title@, children: elements_of(items@) },
        ),
        Node::Command { title, index, key, checked, os_selector } => Some(
            ElementModel::Command {
                title: title@,
                target: target_of(index, os_selector),
                key: key_model(key),
                checked,
            },
        ),
    }
}

/// The elements in groups. A separator begins a new group, unless nothing is in the last one.
pub open spec fn groups_of(nodes: Seq<Node>) -> Seq<Seq<ElementModel>>
    decreases nodes, 1int,
{
    if nodes.len() == 0 {
        seq![seq![]]
    } else {
        let groups = groups_of(nodes.drop_last());
        match element_of(nodes.last()) {
            Some(element) => groups.drop_last().push(groups.last().push(element)),
            None => if groups.last().len() > 0 {
                groups.push(seq![])
            } else {
                groups
            },
        }
    }
}

/// The groups that hold something. Only the last can be empty.
pub open spec fn filled(groups: Seq<Seq<ElementModel>>) -> Seq<Seq<ElementModel>> {
    if groups.last().len() == 0 {
        groups.drop_last()
    } else {
        groups
    }
}

/// The elements for some parts of the menu. Where separators split them, every group is set off from
/// its neighbours.
pub open spec fn elements_of(nodes: Seq<Node>) -> Seq<ElementModel>
    decreases nodes, 2int,
{
    let groups = filled(groups_of(nodes));
    if groups.len() == 0 {
        seq![]
    } else if groups.len() == 1 {
        groups[0]
    } else {
        groups.map_values(|group: Seq<ElementModel>| ElementModel::Inline(group))
    }
}

/// The element for a part of the menu.
fn element(node: &Node) -> (r: Option<Element>)
    ensures
        match r {
            Some(element) => element_of(*node) == Some(element.model()),
            None => element_of(*node) is None,
        },
    decreases node, 0int,
{
    match node {
        Node::Separator => None,
        Node::Submenu { title, items, .. } => {
            let children = elements(items);
            Some(Element::Menu { title: title.clone(), children })
        },
        Node::Command { title, index, key, checked, os_selector } => {
            let target = match os_selector {
                Some(selector) => CommandTarget::Os(*selector),
                None => CommandTarget::Item(*index),
            };
            Some(
                Element::Command {
                    title: title.clone(),
                    target,
                    key: copy_key(key),
                    checked: *checked,
                },
            )
        },
    }
}

fn copy_key(key: &Option<KeyEquivalent>) -> (r: Option<KeyEquivalent>)
    ensures
        key_model(r) == key_model(*key),
{
    match key {
        Some(key) => Some(
            KeyEquivalent { input: key.input.clone(), modifiers: key.modifiers },
        ),
        None => None,
    }
}

/// The models of some groups.
pub open spec fn group_models(groups: Seq<Vec<Element>>) -> Seq<Seq<ElementModel>> {
    groups.map_values(|group: Vec<Element>| element_models(group@))
}

proof fn lemma_element_models_len(elements: Seq<Element>)
    ensures
        element_models(elements).len() == elements.len(),
    decreases elements.len(),
{
    if elements.len() > 0 {
        lemma_element_models_len(elements.drop_last());
    }
}

proof fn lemma_groups_of(nodes: Seq<Node>)
    ensures
        groups_of(nodes).len() > 0,
        forall|i: int|
            0 <= i < groups_of(nodes).len() - 1 ==> (#[trigger] groups_of(nodes)[i]).len() > 0,
    decreases nodes.len(),
{
    if nodes.len() > 0 {
        lemma_groups_of(nodes.drop_last());
    }
}

/// The parts of the menu in groups.
fn groups(items: &Vec<Node>) -> (r: Vec<Vec<Element>>)
    ensures
        group_models(r@) == groups_of(items@),
    decreases items, 1int,
{
    let mut groups: Vec<Vec<Element>> = Vec::new();
    groups.push(Vec::new());
    let mut i: usize = 0;
    proof {
        assert(items@.take(0) =~= Seq::<Node>::empty());
        assert(group_models(groups@) =~= groups_of(items@.take(0)));
    }
    while i < items.len()
        invariant
            i <= items@.len(),
            groups@.len() > 0,
            group_models(groups@) == groups_of(items@.take(i as int)),
        decreases items@.len() - i,
    {
        let ghost before = groups@;
        proof {
            assert(items@.take(i + 1).drop_last() =~= items@.take(i as int));
            assert(group_models(before).last() == element_models(before.last()@));
            assert(group_models(before).drop_last() =~= group_models(before.drop_last()));
            lemma_element_models_len(before.last()@);
        }
        match element(&items[i]) {
            Some(element) => {
                let ghost model = element.model();
                let mut group = groups.pop().unwrap();
                let ghost old_group = group@;
                group.push(element);
                proof {
                    assert(group@.drop_last() =~= old_group);
                    assert(element_models(group@) == element_models(old_group).push(model));
                }
                groups.push(group);
                assert(group_models(groups@) =~= group_models(before.drop_last()).push(
                    element_models(old_group).push(model),
                ));
            },
            None => {
                if groups[groups.len() - 1].len() > 0 {
                    groups.push(Vec::new());
                    assert(group_models(groups@) =~= group_models(before).push(seq![]));
                }
            },
        }
        i = i + 1;
    }
    assert(items@.take(i as int) =~= items@);
    groups
}

/// The elements for some parts of the menu.
pub fn elements(items: &Vec<Node>) -> (r: Vec<Element>)
    ensures
        element_models(r@) == elements_of(items@),
    decreases items, 2int,
{
    let mut groups = groups(items);
    proof {
        lemma_groups_of(items@);
        assert(groups@.len() == groups_of(items@).len());
        assert(group_models(groups@).last() == element_models(groups@.last()@));
        assert(group_models(groups@).drop_last() =~= group_models(groups@.drop_last()));
        lemma_element_models_len(groups@.last()@);
    }
    if groups[groups.len() - 1].len() == 0 {
        groups.pop();
    }
    assert(group_models(groups@) == filled(groups_of(items@)));
    if groups.len() == 0 {
        return Vec::new();
    }
    if groups.len() == 1 {
        let flat = groups.pop().unwrap();
        assert(filled(groups_of(items@))[0] == element_models(flat@));
        return flat;
    }
    let ghost all = groups@;
    let ghost models = group_models(all).map_values(
        |group: Seq<ElementModel>| ElementModel::Inline(group),
    );
    let mut inline: Vec<Element> = Vec::new();
    let ghost mut count: int = 0;
    assert(all.skip(0) =~= all);
    assert(models.take(0) =~= Seq::<ElementModel>::empty());
    while groups.len() > 0
        invariant
            0 <= count,
            count + groups@.len() == all.len(),
            groups@ == all.skip(count),
            models == group_models(all).map_values(
                |group: Seq<ElementModel>| ElementModel::Inline(group),
            ),
            element_models(inline@) == models.take(count),
        decreases groups@.len(),
    {
        let ghost before = inline@;
        let group = groups.remove(0);
        assert(group == all[count]);
        let ghost children = group@;
        inline.push(Element::Inline(group));
        proof {
            assert(inline@.drop_last() =~= before);
            assert(inline@.last().model() == ElementModel::Inline(element_models(children)));
            assert(models[count] == ElementModel::Inline(element_models(children)));
            assert(models.take(count + 1) =~= models.take(count).push(
                models[count],
            ));
            assert(groups@ =~= all.skip(count + 1));
            count = count + 1;
        }
    }
    assert(models.take(count) =~= models);
    inline
}

/// A menu of the system that the application's own replace.
#[derive(Clone, Copy, Debug, PartialEq, Eq, Structural)]
pub enum SystemMenu {
    File,
    Edit,
    Format,
    View,
    Window,
    Help,
}

/// A menu that another is inserted behind.
#[derive(Debug)]
pub enum Neighbour {
    /// The application's menu.
    Application,
    /// A menu that was inserted, by its identifier.
    Inserted(String),
}

/// A step of building the main menu.
#[derive(Debug)]
pub enum BuildStep {
    Remove(SystemMenu),
    /// Gives the application's menu these children in place of its own. Its title stays.
    ReplaceApplicationChildren(Vec<Element>),
    Insert { title: String, identifier: String, children: Vec<Element>, after: Neighbour },
}

/// A step of building the main menu, as contracts speak of it.
pub enum StepModel {
    Remove(SystemMenu),
    ReplaceApplicationChildren(Seq<ElementModel>),
    /// `after` is the identifier of the menu in front, or nothing for the application's.
    Insert {
        title: Seq<char>,
        identifier: Seq<char>,
        children: Seq<ElementModel>,
        after: Option<Seq<char>>,
    },
}

impl BuildStep {
    pub open spec fn model(self) -> StepModel {
        match self {
            BuildStep::Remove(menu) => StepModel::Remove(menu),
            BuildStep::ReplaceApplicationChildren(children) => {
                StepModel::ReplaceApplicationChildren(element_models(children@))
            },
            BuildStep::Insert { title, identifier, children, after } => StepModel::Insert {
                title: title@,
                identifier: identifier@,
                children: element_models(children@),
                after: match after {
                    Neighbour::Application => None,
                    Neighbour::Inserted(identifier) => Some(identifier@),
                },
            },
        }
    }
}

pub open spec fn step_models(steps: Seq<BuildStep>) -> Seq<StepModel> {
    steps.map_values(|step: BuildStep| step.model())
}

/// The identifier of the menu at a position.
pub open spec fn identifier_at(position: nat) -> Seq<char> {
    "de.gpui.ios.menu."@ + decimal(position)
}

/// The step for the menu at a position: the first takes the place of the application's menu, and
/// each of the others stands behind the one before it.
pub open spec fn menu_step(node: Node, position: nat) -> Option<StepModel> {
    match node {
        Node::Submenu { title, items, .. } => Some(
            if position == 0 {
                StepModel::ReplaceApplicationChildren(elements_of(items@))
            } else {
                StepModel::Insert {
                    title: title@,
                    identifier: identifier_at(position),
                    children: elements_of(items@),
                    after: if position == 1 {
                        None
                    } else {
                        Some(identifier_at((position - 1) as nat))
                    },
                }
            },
        ),
        _ => None,
    }
}

pub open spec fn menu_steps(nodes: Seq<Node>) -> Seq<StepModel>
    decreases nodes.len(),
{
    if nodes.len() == 0 {
        seq![]
    } else {
        let before = menu_steps(nodes.drop_last());
        match menu_step(nodes.last(), (nodes.len() - 1) as nat) {
            Some(step) => before.push(step),
            None => before,
        }
    }
}

/// The system's menus that are removed, in order.
pub open spec fn removals() -> Seq<StepModel> {
    seq![
        StepModel::Remove(SystemMenu::File),
        StepModel::Remove(SystemMenu::Edit),
        StepModel::Remove(SystemMenu::Format),
        StepModel::Remove(SystemMenu::View),
        StepModel::Remove(SystemMenu::Window),
        StepModel::Remove(SystemMenu::Help),
    ]
}

fn identifier(position: usize) -> (r: String)
    ensures
        r@ == identifier_at(position as nat),
{
    let mut text: String = "de.gpui.ios.menu.".to_owned();
    append_decimal(&mut text, position);
    text
}

/// The menus of the system that the application's own replace.
fn replaced_system_menus() -> (r: Vec<BuildStep>)
    ensures
        step_models(r@) == removals(),
{
    let steps = vec![
        BuildStep::Remove(SystemMenu::File),
        BuildStep::Remove(SystemMenu::Edit),
        BuildStep::Remove(SystemMenu::Format),
        BuildStep::Remove(SystemMenu::View),
        BuildStep::Remove(SystemMenu::Window),
        BuildStep::Remove(SystemMenu::Help),
    ];
    assert(step_models(steps@) =~= removals());
    steps
}

impl State {
    /// The steps that make the main menu of what is kept. Without menus the system's own is left as
    /// it is.
    pub fn build(&self) -> (r: Vec<BuildStep>)
        ensures
            step_models(r@) == if self.model.menus@.len() == 0 {
                seq![]
            } else {
                removals() + menu_steps(self.model.menus@)
            },
    {
        if self.model.menus.len() == 0 {
            let none: Vec<BuildStep> = Vec::new();
            assert(step_models(none@) =~= seq![]);
            return none;
        }
        let mut steps = replaced_system_menus();
        let ghost menus = self.model.menus@;
        let mut position: usize = 0;
        proof {
            assert(menus.take(0) =~= Seq::<Node>::empty());
            assert(step_models(steps@) =~= removals() + menu_steps(menus.take(0)));
        }
        while position < self.model.menus.len()
            invariant
                menus == self.model.menus@,
                position <= menus.len(),
                step_models(steps@) == removals() + menu_steps(menus.take(position as int)),
            decreases menus.len() - position,
        {
            let ghost before = steps@;
            proof {
                assert(menus.take(position + 1).drop_last() =~= menus.take(position as int));
            }
            if let Node::Submenu { title, items, .. } = &self.model.menus[position] {
                let children = elements(items);
                let step = if position == 0 {
                    BuildStep::ReplaceApplicationChildren(children)
                } else {
                    BuildStep::Insert {
                        title: title.clone(),
                        identifier: identifier(position),
                        children,
                        after: if position == 1 {
                            Neighbour::Application
                        } else {
                            Neighbour::Inserted(identifier(position - 1))
                        },
                    }
                };
                assert(Some(step.model()) == menu_step(menus[position as int], position as nat));
                let ghost model = step.model();
                steps.push(step);
                proof {
                    assert(step_models(steps@) =~= step_models(before).push(model));
                    assert(step_models(before).push(model) =~= removals() + menu_steps(
                        menus.take(position as int),
                    ).push(model));
                }
            }
            position = position + 1;
        }
        assert(menus.take(position as int) =~= menus);
        steps
    }
}

// ---- activation and validation -----------------------------------------------------------------

/// A function that is to be called with an action.
#[derive(Clone, Copy, Debug, PartialEq, Eq, Structural)]
pub struct Call {
    pub action: u64,
    pub callback: u64,
}

/// What is known of whether a command is enabled.
#[derive(Clone, Copy, Debug, PartialEq, Eq, Structural)]
pub enum Validation {
    /// The command is not one of the application's and is left alone.
    Ignored,
    Enabled(bool),
    /// The function says whether it is.
    Ask(Call),
}

impl State {
    /// The entry at an index that a command carries, if there is one.
    pub open spec fn entry(self, index: Option<usize>) -> Option<ActionEntry> {
        match index {
            Some(index) => if index < self.model.actions@.len() {
                Some(self.model.actions@[index as int])
            } else {
                None
            },
            None => None,
        }
    }

    fn entry_at(&self, index: Option<usize>) -> (r: Option<ActionEntry>)
        ensures
            r == self.entry(index),
    {
        match index {
            Some(index) => if index < self.model.actions.len() {
                Some(self.model.actions[index])
            } else {
                None
            },
            None => None,
        }
    }

    /// The function that runs actions is out while it runs.
    pub open spec fn command_taken(self) -> State {
        State { menu_command: None, ..self }
    }

    /// The function that runs actions is back, unless another was registered.
    pub open spec fn command_restored(self, callback: u64) -> State {
        match self.menu_command {
            Some(_) => self,
            None => State { menu_command: Some(callback), ..self },
        }
    }

    /// The function that is asked for available actions is out while it runs.
    pub open spec fn validation_taken(self) -> State {
        State { validate_menu_command: None, ..self }
    }

    /// The function that is asked for available actions is back, unless another was registered.
    pub open spec fn validation_restored(self, callback: u64) -> State {
        match self.validate_menu_command {
            Some(_) => self,
            None => State { validate_menu_command: Some(callback), ..self },
        }
    }

    /// What is called for an item that was chosen.
    pub open spec fn call_for(self, index: Option<usize>) -> Option<Call> {
        match (self.entry(index), self.menu_command) {
            (Some(entry), Some(callback)) => Some(Call { action: entry.action, callback }),
            _ => None,
        }
    }

    /// What is known of whether a command is enabled.
    pub open spec fn validation_for(self, is_item: bool, index: Option<usize>) -> Validation {
        match self.entry(index) {
            Some(entry) => if !is_item {
                Validation::Ignored
            } else if entry.disabled {
                Validation::Enabled(false)
            } else {
                match self.validate_menu_command {
                    Some(callback) => Validation::Ask(Call { action: entry.action, callback }),
                    None => Validation::Enabled(true),
                }
            },
            None => Validation::Ignored,
        }
    }

    /// An item was chosen. Says what is to be called, and takes the function out while it runs: the
    /// action may set menus or register another function.
    pub fn perform(&mut self, index: Option<usize>) -> (r: Option<Call>)
        ensures
            r == old(self).call_for(index),
            match old(self).entry(index) {
                Some(entry) => {
                    &&& r == match old(self).menu_command {
                        Some(callback) => Some(Call { action: entry.action, callback }),
                        None => None,
                    }
                    &&& *final(self) == old(self).command_taken()
                },
                None => r is None && *final(self) == *old(self),
            },
    {
        match self.entry_at(index) {
            Some(entry) => {
                let callback = self.menu_command;
                self.menu_command = None;
                match callback {
                    Some(callback) => Some(Call { action: entry.action, callback }),
                    None => None,
                }
            },
            None => None,
        }
    }

    /// The function that ran an action returned. It is put back, unless another was registered.
    pub fn finish_perform(&mut self, callback: u64)
        ensures
            *final(self) == old(self).command_restored(callback),
    {
        if self.menu_command.is_none() {
            self.menu_command = Some(callback);
        }
    }

    /// A command is about to be shown. It is enabled if it is in the menu and its action is
    /// available. `is_item` says whether the command is one of the application's.
    pub fn validate(&mut self, is_item: bool, index: Option<usize>) -> (r: Validation)
        ensures
            r == old(self).validation_for(is_item, index),
            match old(self).entry(index) {
                Some(entry) => if !is_item {
                    r == Validation::Ignored && *final(self) == *old(self)
                } else if entry.disabled {
                    r == Validation::Enabled(false) && *final(self) == *old(self)
                } else {
                    &&& r == match old(self).validate_menu_command {
                        Some(callback) => Validation::Ask(Call { action: entry.action, callback }),
                        None => Validation::Enabled(true),
                    }
                    &&& *final(self) == old(self).validation_taken()
                },
                None => r == Validation::Ignored && *final(self) == *old(self),
            },
    {
        if !is_item {
            return Validation::Ignored;
        }
        match self.entry_at(index) {
            Some(entry) => if entry.disabled {
                Validation::Enabled(false)
            } else {
                let callback = self.validate_menu_command;
                self.validate_menu_command = None;
                match callback {
                    Some(callback) => Validation::Ask(Call { action: entry.action, callback }),
                    None => Validation::Enabled(true),
                }
            },
            None => Validation::Ignored,
        }
    }

    /// The function that was asked returned. It is put back, unless another was registered.
    pub fn finish_validate(&mut self, callback: u64)
        ensures
            *final(self) == old(self).validation_restored(callback),
    {
        if self.validate_menu_command.is_none() {
            self.validate_menu_command = Some(callback);
        }
    }
}

// ---- laws --------------------------------------------------------------------------------------

/// The actions of some items in the order of the menu, those of submenus in their place.
pub open spec fn actions_of(items: Seq<MenuItem>) -> Seq<ActionEntry>
    decreases items,
{
    if items.len() == 0 {
        seq![]
    } else {
        actions_of(items.drop_last()) + match items.last() {
            MenuItem::Submenu(menu) => actions_of(menu.items@),
            MenuItem::Action { action, disabled, .. } => seq![ActionEntry { action, disabled }],
            _ => seq![],
        }
    }
}

/// The numbers of the commands of some parts of the menu, in order.
pub open spec fn numbers_of(nodes: Seq<NodeModel>) -> Seq<int>
    decreases nodes,
{
    if nodes.len() == 0 {
        seq![]
    } else {
        numbers_of(nodes.drop_last()) + match nodes.last() {
            NodeModel::Submenu { items, .. } => numbers_of(items),
            NodeModel::Command { index, .. } => seq![index],
            NodeModel::Separator => seq![],
        }
    }
}

/// The numbers from one up to another.
pub open spec fn numbers_between(from: nat, to: nat) -> Seq<int> {
    Seq::new((to - from) as nat, |i: int| from + i)
}

/// Converting items appends their actions to the list, and numbers their commands by the places of
/// their actions. So a command carries the number under which its own action is found.
pub proof fn law_commands_carry_the_places_of_their_actions(
    items: Seq<MenuItem>,
    actions: Seq<ActionEntry>,
    keymap: Keymap,
)
    ensures
        converted_all(items, actions, keymap).1 == actions + actions_of(items),
        numbers_of(converted_all(items, actions, keymap).0) == numbers_between(
            actions.len(),
            actions.len() + actions_of(items).len(),
        ),
    decreases items,
{
    if items.len() == 0 {
        assert(actions + actions_of(items) =~= actions);
        assert(numbers_of(converted_all(items, actions, keymap).0) =~= numbers_between(
            actions.len(),
            actions.len(),
        ));
    } else {
        let shorter = items.drop_last();
        law_commands_carry_the_places_of_their_actions(shorter, actions, keymap);
        let (nodes, before) = converted_all(shorter, actions, keymap);
        let (node, after) = converted(items.last(), before, keymap);
        let first = actions.len();
        let middle = before.len();
        match items.last() {
            MenuItem::Submenu(menu) => {
                law_commands_carry_the_places_of_their_actions(menu.items@, before, keymap);
                assert(nodes.push(node->0).drop_last() =~= nodes);
            },
            MenuItem::SystemMenu(_) => {},
            _ => {
                assert(nodes.push(node->0).drop_last() =~= nodes);
            },
        }
        assert(after =~= actions + actions_of(items));
        assert(numbers_of(converted_all(items, actions, keymap).0) =~= numbers_between(
            first,
            after.len(),
        ));
    }
}

/// Running an action leaves the function that runs actions in place, unless the action registers
/// another; then that one stays.
pub proof fn law_callback_outlives_an_action(state: State, callback: u64, other: u64)
    requires
        state.menu_command == Some(callback),
    ensures
        state.command_taken().command_restored(callback) == state,
        (State { menu_command: Some(other), ..state.command_taken() }).command_restored(callback)
            == (State { menu_command: Some(other), ..state }),
{
}

/// So does asking whether an action is available for the function that is asked.
pub proof fn law_callback_outlives_a_validation(state: State, callback: u64, other: u64)
    requires
        state.validate_menu_command == Some(callback),
    ensures
        state.validation_taken().validation_restored(callback) == state,
        (State {
            validate_menu_command: Some(other),
            ..state.validation_taken()
        }).validation_restored(callback) == (State {
            validate_menu_command: Some(other),
            ..state
        }),
{
}

/// Every menu that is inserted has an identifier of its own.
pub proof fn law_identifiers_are_distinct(a: nat, b: nat)
    requires
        a != b,
    ensures
        identifier_at(a) != identifier_at(b),
{
    if identifier_at(a) == identifier_at(b) {
        let prefix = "de.gpui.ios.menu."@;
        assert(identifier_at(a).skip(prefix.len() as int) =~= decimal(a));
        assert(identifier_at(b).skip(prefix.len() as int) =~= decimal(b));
        lemma_decimal_is_injective(a, b);
    }
}

/// The elements for some parts of the menu but the separators, in order.
pub open spec fn all_elements(nodes: Seq<Node>) -> Seq<ElementModel>
    decreases nodes.len(),
{
    if nodes.len() == 0 {
        seq![]
    } else {
        match element_of(nodes.last()) {
            Some(element) => all_elements(nodes.drop_last()).push(element),
            None => all_elements(nodes.drop_last()),
        }
    }
}

/// Grouping keeps every element and their order, and leaves no group empty.
pub proof fn law_grouping_keeps_elements_in_order(nodes: Seq<Node>)
    ensures
        filled(groups_of(nodes)).flatten() == all_elements(nodes),
        forall|i: int|
            0 <= i < filled(groups_of(nodes)).len() ==> (#[trigger] filled(
                groups_of(nodes),
            )[i]).len() > 0,
{
    lemma_groups_of(nodes);
    lemma_groups_flat(nodes);
    let groups = groups_of(nodes);
    if groups.last().len() == 0 {
        groups.drop_last().lemma_flatten_push(groups.last());
        assert(groups.drop_last().push(groups.last()) =~= groups);
        assert(groups.drop_last().flatten() + groups.last() =~= groups.drop_last().flatten());
    }
}

proof fn lemma_groups_flat(nodes: Seq<Node>)
    ensures
        groups_of(nodes).flatten() == all_elements(nodes),
    decreases nodes.len(),
{
    let groups = groups_of(nodes);
    if nodes.len() == 0 {
        Seq::<Seq<ElementModel>>::empty().lemma_flatten_push(seq![]);
        assert(Seq::<Seq<ElementModel>>::empty().push(seq![]) =~= groups);
        assert(Seq::<Seq<ElementModel>>::empty().flatten() =~= Seq::<ElementModel>::empty());
        assert(groups.flatten() =~= Seq::<ElementModel>::empty());
    } else {
        let shorter = nodes.drop_last();
        let before = groups_of(shorter);
        lemma_groups_flat(shorter);
        lemma_groups_of(shorter);
        let front = before.drop_last();
        assert(front.push(before.last()) =~= before);
        front.lemma_flatten_push(before.last());
        match element_of(nodes.last()) {
            Some(element) => {
                front.lemma_flatten_push(before.last().push(element));
                assert(front.flatten() + before.last().push(element) =~= (front.flatten()
                    + before.last()).push(element));
            },
            None => {
                before.lemma_flatten_push(seq![]);
                assert(before.flatten() + Seq::<ElementModel>::empty() =~= before.flatten());
            },
        }
    }
}

/// An item with an action becomes a command. An item whose action the system can do has the selector of
/// the same name, cut, copy, paste or select all; one that undoes or redoes, or that the system knows
/// nothing of, has none. The title, the check mark and the keys are those of the item and its action,
/// the number is the place that its action gets at the end of the list.
pub proof fn law_an_item_becomes_a_command(
    item: MenuItem,
    actions: Seq<ActionEntry>,
    keymap: Keymap,
)
    requires
        item is Action,
    ensures
        ({
            let (node, after) = converted(item, actions, keymap);
            &&& node matches Some(NodeModel::Command { title, index, key, checked, os_selector })
            &&& title == item->name@
            &&& index == actions.len()
            &&& key == equivalent(keymap, item->Action_action)
            &&& checked == item->checked
            &&& item->os_action == Some(OsAction::Cut) ==> os_selector == Some(OsSelector::Cut)
            &&& item->os_action == Some(OsAction::Copy) ==> os_selector == Some(OsSelector::Copy)
            &&& item->os_action == Some(OsAction::Paste) ==> os_selector == Some(OsSelector::Paste)
            &&& item->os_action == Some(OsAction::SelectAll) ==> os_selector == Some(
                OsSelector::SelectAll,
            )
            &&& item->os_action == Some(OsAction::Undo) ==> os_selector is None
            &&& item->os_action == Some(OsAction::Redo) ==> os_selector is None
            &&& item->os_action is None ==> os_selector is None
            &&& after.len() == actions.len() + 1
            &&& after.take(actions.len() as int) == actions
            &&& after.last().action == item->Action_action
            &&& after.last().disabled == item->Action_disabled
        }),
{
    let (_, after) = converted(item, actions, keymap);
    assert(after.take(actions.len() as int) =~= actions);
}

/// What is not an action stays what it is: a separator a separator, a submenu one with the same title
/// that is enabled as it was. A menu that the system fills is left out.
pub proof fn law_other_items_stay_what_they_are(
    item: MenuItem,
    actions: Seq<ActionEntry>,
    keymap: Keymap,
)
    ensures
        item is Separator ==> converted(item, actions, keymap) == (
            Some(NodeModel::Separator),
            actions,
        ),
        item is SystemMenu ==> converted(item, actions, keymap) == (None::<NodeModel>, actions),
        item matches MenuItem::Submenu(menu) ==> {
            let (node, after) = converted(item, actions, keymap);
            &&& node matches Some(NodeModel::Submenu { title, items, disabled })
            &&& title == menu.name@
            &&& disabled == menu.disabled
            &&& items == converted_all(menu.items@, actions, keymap).0
            &&& after == converted_all(menu.items@, actions, keymap).1
        },
{
}

/// Items are converted one after the other, each with the actions of those before it in the list.
pub proof fn law_items_are_converted_in_order(
    front: Seq<MenuItem>,
    back: Seq<MenuItem>,
    actions: Seq<ActionEntry>,
    keymap: Keymap,
)
    ensures
        converted_all(front + back, actions, keymap).0 == converted_all(front, actions, keymap).0
            + converted_all(back, converted_all(front, actions, keymap).1, keymap).0,
        converted_all(front + back, actions, keymap).1 == converted_all(
            back,
            converted_all(front, actions, keymap).1,
            keymap,
        ).1,
    decreases back.len(),
{
    let all = front + back;
    let middle = converted_all(front, actions, keymap).1;
    if back.len() == 0 {
        assert(all =~= front);
        assert(converted_all(front, actions, keymap).0 + Seq::<NodeModel>::empty()
            =~= converted_all(front, actions, keymap).0);
    } else {
        assert(all.drop_last() =~= front + back.drop_last());
        law_items_are_converted_in_order(front, back.drop_last(), actions, keymap);
        assert(converted_all(all, actions, keymap).0 =~= converted_all(front, actions, keymap).0
            + converted_all(back, middle, keymap).0);
    }
}

/// Every menu becomes one part of the menu, in order, with its title, and is enabled as it was. The
/// numbers of its commands go on where those of the menu before it end.
pub proof fn law_menus_stay_in_order(menus: Seq<Menu>, keymap: Keymap, i: int)
    requires
        0 <= i < menus.len(),
    ensures
        converted_menus(menus, keymap).0.len() == menus.len(),
        converted_menus(menus, keymap).0[i] matches NodeModel::Submenu { title, items, disabled }
            && title == menus[i].name@ && disabled == menus[i].disabled && items == converted_all(
            menus[i].items@,
            converted_menus(menus.take(i), keymap).1,
            keymap,
        ).0,
        converted_menus(menus.take(i + 1), keymap).1 == converted_menus(menus.take(i), keymap).1
            + actions_of(menus[i].items@),
    decreases menus.len(),
{
    let shorter = menus.drop_last();
    lemma_menu_count(menus, keymap);
    lemma_menu_count(shorter, keymap);
    assert(menus.take(i + 1).drop_last() =~= menus.take(i));
    law_commands_carry_the_places_of_their_actions(
        menus[i].items@,
        converted_menus(menus.take(i), keymap).1,
        keymap,
    );
    if i < shorter.len() {
        law_menus_stay_in_order(shorter, keymap, i);
        assert(shorter.take(i) =~= menus.take(i));
    } else {
        assert(menus.take(i) =~= shorter);
    }
}

proof fn lemma_menu_count(menus: Seq<Menu>, keymap: Keymap)
    ensures
        converted_menus(menus, keymap).0.len() == menus.len(),
    decreases menus.len(),
{
    if menus.len() > 0 {
        lemma_menu_count(menus.drop_last(), keymap);
    }
}

/// A command of the menu becomes an element with its title, its keys and its check mark. One with a
/// selector is handled by the system, which is sent that very message; one without is handled by the
/// application, which finds the action by the command's number. A submenu becomes a menu with its
/// title, and a separator nothing.
pub proof fn law_commands_become_elements(node: Node)
    ensures
        node matches Node::Command { title, index, key, checked, os_selector } ==> {
            &&& element_of(node) matches Some(
                ElementModel::Command { title: text, target, key: keys, checked: mark },
            )
            &&& text == title@
            &&& keys == key_model(key)
            &&& mark == checked
            &&& os_selector == Some(OsSelector::Cut) ==> target == CommandTarget::Os(
                OsSelector::Cut,
            )
            &&& os_selector == Some(OsSelector::Copy) ==> target == CommandTarget::Os(
                OsSelector::Copy,
            )
            &&& os_selector == Some(OsSelector::Paste) ==> target == CommandTarget::Os(
                OsSelector::Paste,
            )
            &&& os_selector == Some(OsSelector::SelectAll) ==> target == CommandTarget::Os(
                OsSelector::SelectAll,
            )
            &&& os_selector is None ==> target == CommandTarget::Item(index)
        },
        node matches Node::Submenu { title, items, .. } ==> {
            &&& element_of(node) matches Some(ElementModel::Menu { title: text, children })
            &&& text == title@
            &&& children == elements_of(items@)
        },
        node is Separator ==> element_of(node) is None,
{
}

/// An item is carried from the application's menus to the system's: what handles the element that is
/// built for it is the system's own cut, copy, paste or select all where the item asked for it, and
/// the application otherwise, under the number of the item's action.
pub proof fn law_an_item_keeps_its_meaning(
    item: MenuItem,
    actions: Seq<ActionEntry>,
    keymap: Keymap,
    node: Node,
)
    requires
        item is Action,
        converted(item, actions, keymap).0 == Some(node.model()),
    ensures
        element_of(node) is Some,
        element_of(node)->0 is Command,
        element_of(node)->0->Command_title == item->name@,
        element_of(node)->0->Command_checked == item->checked,
        element_of(node)->0->Command_key == equivalent(keymap, item->Action_action),
        item->os_action == Some(OsAction::Cut) ==> element_of(node)->0->target == CommandTarget::Os(
            OsSelector::Cut,
        ),
        item->os_action == Some(OsAction::Copy) ==> element_of(node)->0->target
            == CommandTarget::Os(OsSelector::Copy),
        item->os_action == Some(OsAction::Paste) ==> element_of(node)->0->target
            == CommandTarget::Os(OsSelector::Paste),
        item->os_action == Some(OsAction::SelectAll) ==> element_of(node)->0->target
            == CommandTarget::Os(OsSelector::SelectAll),
        item->os_action is None || item->os_action == Some(OsAction::Undo) || item->os_action
            == Some(OsAction::Redo) ==> {
            &&& element_of(node)->0->target matches CommandTarget::Item(number)
            &&& number == actions.len()
            &&& converted(item, actions, keymap).1[number as int].action == item->Action_action
        },
{
    law_an_item_becomes_a_command(item, actions, keymap);
    law_commands_become_elements(node);
    assert(node is Command);
}

/// Separators, and nothing else, split what they stand between into groups: the groups of a list with a
/// separator in it are those in front of it and those behind it.
pub proof fn law_separators_split_groups(front: Seq<Node>, back: Seq<Node>)
    ensures
        filled(groups_of(front.push(Node::Separator) + back)) == filled(groups_of(front)) + filled(
            groups_of(back),
        ),
{
    lemma_split(front, back);
    lemma_groups_of(back);
    let groups = groups_of(front.push(Node::Separator) + back);
    let first = filled(groups_of(front));
    let second = groups_of(back);
    assert(groups.last() == second.last());
    if second.last().len() == 0 {
        assert(groups.drop_last() =~= first + second.drop_last());
    }
}

proof fn lemma_split(front: Seq<Node>, back: Seq<Node>)
    ensures
        groups_of(front.push(Node::Separator) + back) == filled(groups_of(front)) + groups_of(back),
    decreases back.len(),
{
    let all = front.push(Node::Separator) + back;
    let first = filled(groups_of(front));
    lemma_groups_of(front);
    if back.len() == 0 {
        assert(all =~= front.push(Node::Separator));
        assert(all.drop_last() =~= front);
        assert(element_of(all.last()) is None);
        let groups = groups_of(front);
        let none = Seq::<ElementModel>::empty();
        assert(groups_of(back) =~= seq![none]);
        if groups.last().len() > 0 {
            assert(groups_of(all) =~= groups.push(none));
        } else {
            assert(groups.last() =~= none);
            assert(groups_of(all) == groups);
            assert(groups =~= groups.drop_last() + seq![none]);
        }
    } else {
        let shorter = back.drop_last();
        assert(all.drop_last() =~= front.push(Node::Separator) + shorter);
        lemma_split(front, shorter);
        lemma_groups_of(shorter);
        let before = groups_of(all.drop_last());
        let rest = groups_of(shorter);
        assert(all.last() == back.last());
        assert(before == first + rest);
        assert(before.last() == rest.last());
        assert(before.drop_last() =~= first + rest.drop_last());
        match element_of(back.last()) {
            Some(element) => {
                let group = rest.last().push(element);
                assert(groups_of(all) == before.drop_last().push(group));
                assert(groups_of(back) == rest.drop_last().push(group));
                assert(groups_of(all) =~= first + groups_of(back));
            },
            None => {
                assert(groups_of(all) =~= first + groups_of(back));
            },
        }
    }
}

/// What no separator splits is one group, in order, and stands in its menu as it is. Where there are
/// several groups, each is set off by itself, in order.
pub proof fn law_groups_are_set_off(nodes: Seq<Node>)
    ensures
        (forall|i: int| 0 <= i < nodes.len() ==> !(#[trigger] nodes[i] is Separator)) ==> {
            &&& elements_of(nodes) == all_elements(nodes)
            &&& all_elements(nodes).len() == nodes.len()
            &&& forall|i: int|
                0 <= i < nodes.len() ==> Some(#[trigger] all_elements(nodes)[i]) == element_of(
                    nodes[i],
                )
        },
        filled(groups_of(nodes)).len() > 1 ==> {
            &&& elements_of(nodes).len() == filled(groups_of(nodes)).len()
            &&& forall|i: int|
                0 <= i < elements_of(nodes).len() ==> #[trigger] elements_of(nodes)[i]
                    == ElementModel::Inline(filled(groups_of(nodes))[i])
        },
        filled(groups_of(nodes)).len() <= 1 ==> elements_of(nodes) == all_elements(nodes),
{
    law_grouping_keeps_elements_in_order(nodes);
    let groups = filled(groups_of(nodes));
    if groups.len() == 0 {
        assert(groups =~= Seq::<Seq<ElementModel>>::empty());
        assert(groups.flatten() =~= Seq::<ElementModel>::empty());
    } else if groups.len() == 1 {
        Seq::<Seq<ElementModel>>::empty().lemma_flatten_push(groups[0]);
        assert(Seq::<Seq<ElementModel>>::empty().push(groups[0]) =~= groups);
        assert(Seq::<Seq<ElementModel>>::empty().flatten() + groups[0] =~= groups[0]);
    }
    if forall|i: int| 0 <= i < nodes.len() ==> !(#[trigger] nodes[i] is Separator) {
        lemma_one_group(nodes);
    }
}

proof fn lemma_one_group(nodes: Seq<Node>)
    requires
        forall|i: int| 0 <= i < nodes.len() ==> !(#[trigger] nodes[i] is Separator),
    ensures
        groups_of(nodes).len() == 1,
        all_elements(nodes).len() == nodes.len(),
        forall|i: int|
            0 <= i < nodes.len() ==> Some(#[trigger] all_elements(nodes)[i]) == element_of(nodes[i]),
    decreases nodes.len(),
{
    if nodes.len() > 0 {
        let shorter = nodes.drop_last();
        assert forall|i: int| 0 <= i < shorter.len() implies !(#[trigger] shorter[i]
            is Separator) by {
            assert(shorter[i] == nodes[i]);
        }
        lemma_one_group(shorter);
        assert(!(nodes[nodes.len() - 1] is Separator));
        assert forall|i: int| 0 <= i < nodes.len() implies Some(#[trigger] all_elements(nodes)[i])
            == element_of(nodes[i]) by {
            if i < shorter.len() {
                assert(all_elements(nodes)[i] == all_elements(shorter)[i]);
                assert(shorter[i] == nodes[i]);
            }
        }
    }
}

/// The first menu takes the place of the children of the application's own; every other one is inserted
/// with its title, behind the one before it: the second behind the application's, each later one
/// behind the identifier of its neighbour in front. The children are those of the menu.
pub proof fn law_menus_stand_behind_each_other(nodes: Seq<Node>, i: int)
    requires
        forall|j: int| 0 <= j < nodes.len() ==> #[trigger] nodes[j] is Submenu,
        0 <= i < nodes.len(),
    ensures
        menu_steps(nodes).len() == nodes.len(),
        i == 0 ==> menu_steps(nodes)[i] == StepModel::ReplaceApplicationChildren(
            elements_of(nodes[i]->items@),
        ),
        i > 0 ==> {
            &&& menu_steps(nodes)[i] matches StepModel::Insert { title, identifier, children, after }
            &&& title == nodes[i]->Submenu_title@
            &&& children == elements_of(nodes[i]->items@)
            &&& i == 1 ==> after is None
            &&& i > 1 ==> (menu_steps(nodes)[i - 1] matches StepModel::Insert {
                identifier: other,
                ..
            } && after == Some(other) && other != identifier)
        },
    decreases nodes.len(),
{
    lemma_menu_steps(nodes);
    if i > 1 {
        law_identifiers_are_distinct(i as nat, (i - 1) as nat);
    }
}

proof fn lemma_menu_steps(nodes: Seq<Node>)
    requires
        forall|j: int| 0 <= j < nodes.len() ==> #[trigger] nodes[j] is Submenu,
    ensures
        menu_steps(nodes).len() == nodes.len(),
        forall|j: int|
            0 <= j < nodes.len() ==> Some(#[trigger] menu_steps(nodes)[j]) == menu_step(
                nodes[j],
                j as nat,
            ),
    decreases nodes.len(),
{
    if nodes.len() > 0 {
        let shorter = nodes.drop_last();
        assert forall|j: int| 0 <= j < shorter.len() implies #[trigger] shorter[j] is Submenu by {
            assert(shorter[j] == nodes[j]);
        }
        lemma_menu_steps(shorter);
        assert(nodes[nodes.len() - 1] is Submenu);
        assert forall|j: int| 0 <= j < nodes.len() implies Some(#[trigger] menu_steps(nodes)[j])
            == menu_step(nodes[j], j as nat) by {
            if j < shorter.len() {
                assert(menu_steps(nodes)[j] == menu_steps(shorter)[j]);
                assert(shorter[j] == nodes[j]);
            }
        }
    }
}

/// All of the system's menus that the application's replace are removed, each once, and nothing else is
/// done before that.
pub proof fn law_the_systems_menus_are_removed(menu: SystemMenu)
    ensures
        exists|i: int| 0 <= i < removals().len() && #[trigger] removals()[i] == StepModel::Remove(
            menu,
        ),
        forall|i: int| 0 <= i < removals().len() ==> #[trigger] removals()[i] is Remove,
        removals().no_duplicates(),
{
    assert(removals()[match menu {
        SystemMenu::File => 0,
        SystemMenu::Edit => 1,
        SystemMenu::Format => 2,
        SystemMenu::View => 3,
        SystemMenu::Window => 4,
        SystemMenu::Help => 5,
    }] == StepModel::Remove(menu));
}

/// A number leads to the action in its place and to nothing where there is none. While a function runs
/// it is out, so that it is not called again from within, and nothing else changes.
pub proof fn law_functions_are_out_while_they_run(state: State, index: usize)
    ensures
        state.entry(None) is None,
        state.entry(Some(index)) is Some == (index < state.model.actions@.len()),
        state.entry(Some(index)) matches Some(entry) ==> entry == state.model.actions@[index as int],
        state.command_taken().menu_command is None,
        state.command_taken().model == state.model,
        state.command_taken().validate_menu_command == state.validate_menu_command,
        state.command_taken().will_open_menu == state.will_open_menu,
        state.validation_taken().validate_menu_command is None,
        state.validation_taken().model == state.model,
        state.validation_taken().menu_command == state.menu_command,
        state.validation_taken().will_open_menu == state.will_open_menu,
{
}

/// Choosing an item calls the function that runs actions, with the action in the item's place, if there
/// is such a function and such a place, and nothing otherwise.
pub proof fn law_choosing_an_item_runs_its_action(state: State, index: usize)
    ensures
        state.call_for(Some(index)) is Some <==> index < state.model.actions@.len()
            && state.menu_command is Some,
        state.call_for(Some(index)) matches Some(call) ==> {
            &&& call.action == state.model.actions@[index as int].action
            &&& Some(call.callback) == state.menu_command
        },
        state.call_for(None) is None,
{
}

/// A command that is not the application's, or leads to no action, is left alone. One whose item is
/// disabled is disabled, without anything being asked. Any other is what the function says that is asked
/// for it, and enabled where there is none.
pub proof fn law_disabled_items_are_not_asked_for(state: State, is_item: bool, index: usize)
    ensures
        !is_item || index >= state.model.actions@.len() <==> state.validation_for(
            is_item,
            Some(index),
        ) is Ignored,
        is_item && index < state.model.actions@.len() ==> {
            let entry = state.model.actions@[index as int];
            let validation = state.validation_for(is_item, Some(index));
            &&& entry.disabled <==> validation == Validation::Enabled(false)
            &&& !entry.disabled && state.validate_menu_command is None <==> validation
                == Validation::Enabled(true)
            &&& !entry.disabled && state.validate_menu_command is Some <==> validation is Ask
            &&& validation matches Validation::Ask(call) ==> call.action == entry.action && Some(
                call.callback,
            ) == state.validate_menu_command
        },
        state.validation_for(is_item, None) is Ignored,
{
}

/// What contracts say of parts of the menu, they say of the parts themselves: of each in its place, with the
/// title, the number, the keys and the marks that it has.
pub proof fn law_models_show_what_is_there(
    node: Node,
    nodes: Seq<Node>,
    element: Element,
    elements: Seq<Element>,
    step: BuildStep,
    steps: Seq<BuildStep>,
    i: int,
)
    ensures
        node_models(nodes).len() == nodes.len(),
        0 <= i < nodes.len() ==> node_models(nodes)[i] == nodes[i].model(),
        element_models(elements).len() == elements.len(),
        0 <= i < elements.len() ==> element_models(elements)[i] == elements[i].model(),
        step_models(steps).len() == steps.len(),
        0 <= i < steps.len() ==> step_models(steps)[i] == steps[i].model(),
        node is Separator <==> node.model() is Separator,
        node matches Node::Submenu { title, items, disabled } ==> {
            &&& node.model() matches NodeModel::Submenu { title: text, items: parts, disabled: off }
            &&& text == title@
            &&& parts == node_models(items@)
            &&& off == disabled
        },
        node matches Node::Command { title, index, key, checked, os_selector } ==> {
            &&& node.model() matches NodeModel::Command {
                title: text,
                index: number,
                key: keys,
                checked: mark,
                os_selector: selector,
            }
            &&& text == title@
            &&& number == index
            &&& keys is Some == key is Some
            &&& key is Some ==> keys->0.input == key->0.input@ && keys->0.modifiers
                == key->0.modifiers
            &&& mark == checked
            &&& selector == os_selector
        },
        element matches Element::Menu { title, children } ==> {
            &&& element.model() matches ElementModel::Menu { title: text, children: parts }
            &&& text == title@
            &&& parts == element_models(children@)
        },
        element matches Element::Inline(children) ==> element.model() == ElementModel::Inline(
            element_models(children@),
        ),
        element matches Element::Command { title, target, key, checked } ==> {
            &&& element.model() matches ElementModel::Command {
                title: text,
                target: aim,
                key: keys,
                checked: mark,
            }
            &&& text == title@
            &&& aim == target
            &&& keys is Some == key is Some
            &&& key is Some ==> keys->0.input == key->0.input@ && keys->0.modifiers
                == key->0.modifiers
            &&& mark == checked
        },
        step matches BuildStep::Remove(menu) ==> step.model() == StepModel::Remove(menu),
        step matches BuildStep::ReplaceApplicationChildren(children) ==> step.model()
            == StepModel::ReplaceApplicationChildren(element_models(children@)),
        step matches BuildStep::Insert { title, identifier, children, after } ==> {
            &&& step.model() matches StepModel::Insert {
                title: text,
                identifier: name,
                children: parts,
                after: neighbour,
            }
            &&& text == title@
            &&& name == identifier@
            &&& parts == element_models(children@)
            &&& after is Application <==> neighbour is None
            &&& after matches Neighbour::Inserted(other) ==> neighbour == Some(other@)
        },
{
    lemma_node_models(nodes);
    lemma_element_model_places(elements);
}

proof fn lemma_node_models(nodes: Seq<Node>)
    ensures
        node_models(nodes).len() == nodes.len(),
        forall|i: int|
            0 <= i < nodes.len() ==> #[trigger] node_models(nodes)[i] == nodes[i].model(),
    decreases nodes.len(),
{
    if nodes.len() > 0 {
        let shorter = nodes.drop_last();
        lemma_node_models(shorter);
        assert forall|i: int| 0 <= i < nodes.len() implies #[trigger] node_models(nodes)[i]
            == nodes[i].model() by {
            if i < shorter.len() {
                assert(node_models(nodes)[i] == node_models(shorter)[i]);
            }
        }
    }
}

proof fn lemma_element_model_places(elements: Seq<Element>)
    ensures
        element_models(elements).len() == elements.len(),
        forall|i: int|
            0 <= i < elements.len() ==> #[trigger] element_models(elements)[i]
                == elements[i].model(),
    decreases elements.len(),
{
    if elements.len() > 0 {
        let shorter = elements.drop_last();
        lemma_element_model_places(shorter);
        assert forall|i: int| 0 <= i < elements.len() implies #[trigger] element_models(elements)[i]
            == elements[i].model() by {
            if i < shorter.len() {
                assert(element_models(elements)[i] == element_models(shorter)[i]);
            }
        }
    }
}

} // verus!
