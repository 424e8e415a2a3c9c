//! Looking for scenes: `.blend` files anywhere below the upload directory,
//! but for the directory of chunks.
use crate::text::{ending_letter_by_letter, ends_ignoring_case, has_ending, same_text, texts};
use vstd::prelude::*;
use vstd::string::*;

verus! {

/// What a directory entry is.
#[derive(Clone, Copy, Debug, PartialEq, Eq, Structural)]
pub enum EntryKind {
    Directory,
    File,
    Other,
}

/// One entry of a directory.
#[derive(Debug, PartialEq)]
pub struct DirEntry {
    pub name: String,
    pub kind: EntryKind,
}

/// The file is a scene, by its name: its extension is `blend`, in small or
/// capital letters. (A name that is nothing but `.blend` has no extension.)
pub open spec fn is_scene_name(name: Seq<char>) -> bool {
    name.len() > 6 && ends_ignoring_case(name, ".blend"@)
}

/// The path of an entry, relative to the directory where the search began.
pub open spec fn joined(dir: Seq<char>, name: Seq<char>) -> Seq<char> {
    if dir.len() == 0 {
        name
    } else {
        dir + "/"@ + name
    }
}

/// An entry that is still to be looked at.
pub struct Item {
    pub dir: Seq<char>,
    pub name: Seq<char>,
    pub kind: EntryKind,
}

/// The search goes into the directory.
pub open spec fn is_entered(item: Item) -> bool {
    item.kind == EntryKind::Directory && item.name != "temp_chunks"@
}

/// The entry is one of the results.
pub open spec fn is_scene(item: Item) -> bool {
    item.kind == EntryKind::File && is_scene_name(item.name)
}

/// How far the search gets before it needs to see another directory: the
/// entries still to be looked at (the next one last), the scenes found, and
/// the directory to be listed.
pub open spec fn settled(items: Seq<Item>, found: Seq<Seq<char>>) -> (
    Seq<Item>,
    Seq<Seq<char>>,
    Option<Seq<char>>,
)
    decreases items.len(),
{
    if items.len() == 0 {
        (items, found, None)
    } else {
        let item = items.last();
        let path = joined(item.dir, item.name);
        if is_entered(item) {
            (items.drop_last(), found, Some(path))
        } else if is_scene(item) {
            settled(items.drop_last(), found.push(path))
        } else {
            settled(items.drop_last(), found)
        }
    }
}

struct Pending {
    dir: String,
    name: String,
    kind: EntryKind,
}

impl View for Pending {
    type V = Item;

    closed spec fn view(&self) -> Item {
        Item { dir: self.dir@, name: self.name@, kind: self.kind }
    }
}

/// A search in progress.
pub struct BlendSearch {
    pending: Vec<Pending>,
    found: Vec<String>,
}

/// The entries of a directory, as they are still to be looked at.
pub open spec fn listing(dir: Seq<char>, entries: Seq<DirEntry>) -> Seq<Item> {
    entries.map_values(|entry: DirEntry| Item { dir, name: entry.name@, kind: entry.kind })
}

/// Names an entry of a directory by its path.
pub fn join(dir: &str, name: &str) -> (res: String)
    ensures
        res@ == joined(dir@, name@),
{
    if dir.is_empty() {
        name.to_owned()
    } else {
        dir.to_owned().concat("/").concat(name)
    }
}

impl BlendSearch {
    /// The entries still to be looked at, the next one last.
    pub closed spec fn items(&self) -> Seq<Item> {
        self.pending@.map_values(|p: Pending| p@)
    }

    /// The scenes found so far.
    pub closed spec fn scenes(&self) -> Seq<Seq<char>> {
        texts(self.found@)
    }

    /// Begins at a directory, whose entries are still unknown.
    pub fn new() -> (res: BlendSearch)
        ensures
            res.items() == seq![
                Item { dir: Seq::empty(), name: Seq::empty(), kind: EntryKind::Directory },
            ],
            res.scenes() == Seq::<Seq<char>>::empty(),
    {
        let mut pending: Vec<Pending> = Vec::new();
        pending.push(
            Pending { dir: String::new(), name: String::new(), kind: EntryKind::Directory },
        );
        let res = BlendSearch { pending, found: Vec::new() };
        assert(res.items() =~= seq![
            Item { dir: Seq::empty(), name: Seq::empty(), kind: EntryKind::Directory },
        ]);
        assert(res.scenes() =~= Seq::<Seq<char>>::empty());
        res
    }

    /// Looks at entries until a directory has to be listed, whose path it
    /// returns; none when the search is over.
    pub fn next_directory(&mut self) -> (res: Option<String>)
        ensures
            ({
                let (items, scenes, dir) = settled(old(self).items(), old(self).scenes());
                &&& final(self).items() == items
                &&& final(self).scenes() == scenes
                &&& match res {
                    Some(path) => dir == Some(path@),
                    None => dir is None,
                }
            }),
    {
        while self.pending.len() > 0
            invariant
                settled(self.items(), self.scenes()) == settled(
                    old(self).items(),
                    old(self).scenes(),
                ),
            decreases self.pending@.len(),
        {
            let ghost items = self.items();
            let ghost scenes = self.scenes();
            if let Some(entry) = self.pending.pop() {
                let ghost item = entry@;
                assert(items.last() == item);
                assert(self.items() =~= items.drop_last());
                match entry.kind {
                    EntryKind::Directory => {
                        if !same_text(entry.name.as_str(), "temp_chunks") {
                            return Some(join(entry.dir.as_str(), entry.name.as_str()));
                        }
                    },
                    EntryKind::File => {
                        if scene_name(entry.name.as_str()) {
                            let path = join(entry.dir.as_str(), entry.name.as_str());
                            proof {
                                crate::text::lemma_texts_push(self.found@, path);
                            }
                            self.found.push(path);
                            assert(self.scenes() == scenes.push(joined(item.dir, item.name)));
                            assert(self.items() =~= items.drop_last());
                        }
                    },
                    EntryKind::Other => {},
                }
            }
        }
        assert(self.items().len() == 0);
        None
    }

    /// Takes the entries of the directory that had to be listed; an unreadable
    /// directory has none.
    pub fn list(&mut self, dir: &str, entries: Vec<DirEntry>)
        ensures
            final(self).items() == old(self).items() + listing(dir@, entries@).reverse(),
            final(self).scenes() == old(self).scenes(),
    {
        let ghost all = listing(dir@, entries@);
        let ghost before = self.items();
        let mut rest = entries;
        assert(before + all.skip(all.len() as int).reverse() =~= before);
        while rest.len() > 0
            invariant
                all == listing(dir@, entries@),
                rest@.len() <= entries@.len(),
                rest@ == entries@.take(rest@.len() as int),
                self.items() == before + all.skip(rest@.len() as int).reverse(),
                self.scenes() == old(self).scenes(),
            decreases rest@.len(),
        {
            let ghost n = rest@.len() as int;
            let ghost items = self.items();
            if let Some(entry) = rest.pop() {
                let pending = Pending { dir: dir.to_owned(), name: entry.name, kind: entry.kind };
                let ghost item = pending@;
                self.pending.push(pending);
                proof {
                    assert(item == all[n - 1]);
                    assert(self.items() =~= items.push(item));
                    assert(all.skip(n - 1) =~= seq![item] + all.skip(n));
                    assert((seq![item] + all.skip(n)).reverse() =~= all.skip(n).reverse().push(
                        item,
                    ));
                }
            }
        }
        assert(all.skip(0) =~= all);
    }

    /// The scenes, as paths relative to where the search began.
    pub fn into_scenes(self) -> (res: Vec<String>)
        ensures
            texts(res@) == self.scenes(),
    {
        self.found
    }
}

fn scene_name(name: &str) -> (res: bool)
    ensures
        res == is_scene_name(name@),
{
    vstd::string::StrSliceExecFns::unicode_len(name) > 6 && has_ending(name, ".blend")
}

/// A directory entry with all that lies below it.
pub struct Tree {
    pub name: Seq<char>,
    pub kind: EntryKind,
    pub children: Seq<Tree>,
}

/// The scenes that an entry of the directory `dir` is or holds, in the order
/// of the listings.
pub open spec fn scenes_at(dir: Seq<char>, tree: Tree) -> Seq<Seq<char>>
    decreases tree,
{
    let path = joined(dir, tree.name);
    if is_entered(Item { dir, name: tree.name, kind: tree.kind }) {
        scenes_below(path, tree.children)
    } else if is_scene(Item { dir, name: tree.name, kind: tree.kind }) {
        seq![path]
    } else {
        Seq::empty()
    }
}

/// The scenes among and below the entries of the directory `dir`.
pub open spec fn scenes_below(dir: Seq<char>, trees: Seq<Tree>) -> Seq<Seq<char>>
    decreases trees,
{
    if trees.len() == 0 {
        Seq::empty()
    } else {
        scenes_at(dir, trees[0]) + scenes_below(dir, trees.drop_first())
    }
}

/// An entry that is still to be looked at, with all that lies below it.
pub struct Branch {
    pub dir: Seq<char>,
    pub tree: Tree,
}

/// What the search knows of such entries.
pub open spec fn items_of(stack: Seq<Branch>) -> Seq<Item> {
    stack.map_values(
        |b: Branch| Item { dir: b.dir, name: b.tree.name, kind: b.tree.kind },
    )
}

/// The entries of the directory `dir`, the first one last.
pub open spec fn branches(dir: Seq<char>, children: Seq<Tree>) -> Seq<Branch> {
    children.map_values(|tree: Tree| Branch { dir, tree }).reverse()
}

/// The scenes that are still to be found, the last entry looked at first.
pub open spec fn scenes_ahead(stack: Seq<Branch>) -> Seq<Seq<char>>
    decreases stack.len(),
{
    if stack.len() == 0 {
        Seq::empty()
    } else {
        scenes_at(stack.last().dir, stack.last().tree) + scenes_ahead(stack.drop_last())
    }
}

proof fn lemma_scenes_ahead_of_listing(stack: Seq<Branch>, dir: Seq<char>, children: Seq<Tree>)
    ensures
        scenes_ahead(stack + branches(dir, children)) == scenes_below(dir, children)
            + scenes_ahead(stack),
    decreases children.len(),
{
    let whole = stack + branches(dir, children);
    if children.len() == 0 {
        assert(whole =~= stack);
        assert(scenes_below(dir, children) + scenes_ahead(stack) =~= scenes_ahead(stack));
    } else {
        assert(whole.last() == Branch { dir, tree: children[0] });
        assert(whole.drop_last() =~= stack + branches(dir, children.drop_first()));
        lemma_scenes_ahead_of_listing(stack, dir, children.drop_first());
        assert(scenes_at(dir, children[0]) + (scenes_below(dir, children.drop_first())
            + scenes_ahead(stack)) =~= scenes_below(dir, children) + scenes_ahead(stack));
    }
}

/// One round of a search loses no scene and finds no other. Whatever lies
/// below the entries that are still to be looked at (`stack`): a round that
/// ends the search has found, behind what it had, all the scenes ahead of it;
/// a round that asks for a directory goes on, once that is listed, with the
/// same scenes in sum.
pub proof fn search_round_is_exact(stack: Seq<Branch>, found: Seq<Seq<char>>)
    ensures
        ({
            let (items, scenes, dir) = settled(items_of(stack), found);
            let k = items.len() as int;
            &&& k <= stack.len()
            &&& items == items_of(stack.take(k))
            &&& match dir {
                None => k == 0 && scenes == found + scenes_ahead(stack),
                Some(path) => {
                    let entered = stack[k];
                    let after = stack.take(k) + branches(path, entered.tree.children);
                    &&& k < stack.len()
                    &&& path == joined(entered.dir, entered.tree.name)
                    &&& scenes + scenes_ahead(after) == found + scenes_ahead(stack)
                },
            }
        }),
    decreases stack.len(),
{
    let items = items_of(stack);
    if stack.len() == 0 {
        assert(items =~= items_of(stack.take(0)));
        assert(found + scenes_ahead(stack) =~= found);
    } else {
        let top = stack.last();
        let rest = stack.drop_last();
        let item = items.last();
        let path = joined(item.dir, item.name);
        assert(items.drop_last() =~= items_of(rest));
        assert(rest =~= stack.take(stack.len() - 1));
        if is_entered(item) {
            lemma_scenes_ahead_of_listing(rest, path, top.tree.children);
        } else {
            let found2 = if is_scene(item) {
                found.push(path)
            } else {
                found
            };
            search_round_is_exact(rest, found2);
            let (items2, scenes2, dir2) = settled(items_of(rest), found2);
            assert(rest.take(items2.len() as int) =~= stack.take(items2.len() as int));
            assert(found2 + scenes_ahead(rest) =~= found + scenes_ahead(stack));
        }
    }
}

/// Listing a directory puts its entries, with all that lies below them, on
/// top of what the search has still to look at.
pub proof fn listing_adds_the_children(
    stack: Seq<Branch>,
    dir: Seq<char>,
    entries: Seq<DirEntry>,
    children: Seq<Tree>,
)
    requires
        entries.len() == children.len(),
        forall|i: int|
            0 <= i < entries.len() ==> (#[trigger] entries[i]).name@ == children[i].name
                && entries[i].kind == children[i].kind,
    ensures
        items_of(stack + branches(dir, children)) == items_of(stack) + listing(
            dir,
            entries,
        ).reverse(),
{
    assert(items_of(stack + branches(dir, children)) =~= items_of(stack) + listing(
        dir,
        entries,
    ).reverse());
}

/// A search of a directory has all the scenes below it ahead, each under its
/// path from there, and nothing else.
pub proof fn search_begins_with_everything(children: Seq<Tree>)
    ensures
        ({
            let root = Tree {
                name: Seq::empty(),
                kind: EntryKind::Directory,
                children,
            };
            let stack = seq![Branch { dir: Seq::empty(), tree: root }];
            &&& items_of(stack) == seq![
                Item { dir: Seq::empty(), name: Seq::empty(), kind: EntryKind::Directory },
            ]
            &&& scenes_ahead(stack) == scenes_below(Seq::empty(), children)
        }),
{
    reveal_strlit("temp_chunks");
    let root = Tree { name: Seq::empty(), kind: EntryKind::Directory, children };
    let stack = seq![Branch { dir: Seq::empty(), tree: root }];
    assert("temp_chunks"@.len() == 11);
    assert(stack.drop_last() =~= Seq::<Branch>::empty());
    assert(scenes_ahead(stack.drop_last()) =~= Seq::<Seq<char>>::empty());
    assert(scenes_ahead(stack) =~= scenes_at(Seq::empty(), root));
    assert(items_of(stack) =~= seq![
        Item { dir: Seq::empty(), name: Seq::empty(), kind: EntryKind::Directory },
    ]);
}

/// How many entries there are below and at an entry.
pub open spec fn weight(tree: Tree) -> nat
    decreases tree,
{
    1 + weights(tree.children)
}

/// How many entries there are below and among entries.
pub open spec fn weights(trees: Seq<Tree>) -> nat
    decreases trees,
{
    if trees.len() == 0 {
        0
    } else {
        weight(trees[0]) + weights(trees.drop_first())
    }
}

/// How many entries the search has still to look at.
pub open spec fn weight_ahead(stack: Seq<Branch>) -> nat
    decreases stack.len(),
{
    if stack.len() == 0 {
        0
    } else {
        weight(stack.last().tree) + weight_ahead(stack.drop_last())
    }
}

proof fn lemma_weight_of_listing(stack: Seq<Branch>, dir: Seq<char>, children: Seq<Tree>)
    ensures
        weight_ahead(stack + branches(dir, children)) == weight_ahead(stack) + weights(children),
    decreases children.len(),
{
    let whole = stack + branches(dir, children);
    if children.len() == 0 {
        assert(whole =~= stack);
    } else {
        assert(whole.last() == Branch { dir, tree: children[0] });
        assert(whole.drop_last() =~= stack + branches(dir, children.drop_first()));
        lemma_weight_of_listing(stack, dir, children.drop_first());
    }
}

proof fn lemma_weight_of_part(stack: Seq<Branch>, k: int)
    requires
        0 <= k < stack.len(),
    ensures
        weight_ahead(stack.take(k)) + weight(stack[k].tree) <= weight_ahead(stack),
    decreases stack.len(),
{
    if k == stack.len() - 1 {
        assert(stack.take(k) =~= stack.drop_last());
    } else {
        assert(stack.take(k) =~= stack.drop_last().take(k));
        lemma_weight_of_part(stack.drop_last(), k);
    }
}

/// What the search stands before after a round that asked for a directory,
/// once that is listed; `k` entries of `stack` were left.
pub open spec fn entered(stack: Seq<Branch>, k: int) -> Seq<Branch> {
    let path = joined(stack[k].dir, stack[k].tree.name);
    stack.take(k) + branches(path, stack[k].tree.children)
}

/// The scenes that a search finds that goes on, round by round, until it asks
/// for no other directory, and is told what each one holds.
pub open spec fn searched(stack: Seq<Branch>, found: Seq<Seq<char>>) -> Seq<Seq<char>>
    decreases weight_ahead(stack),
    via searched_decreases
{
    let (items, scenes, dir) = settled(items_of(stack), found);
    match dir {
        None => scenes,
        Some(_) => searched(entered(stack, items.len() as int), scenes),
    }
}

#[via_fn]
proof fn searched_decreases(stack: Seq<Branch>, found: Seq<Seq<char>>) {
    lemma_round_shrinks(stack, found);
}

proof fn lemma_round_shrinks(stack: Seq<Branch>, found: Seq<Seq<char>>)
    ensures
        ({
            let (items, scenes, dir) = settled(items_of(stack), found);
            dir is Some ==> weight_ahead(entered(stack, items.len() as int)) < weight_ahead(stack)
        }),
{
    search_round_is_exact(stack, found);
    let (items, scenes, dir) = settled(items_of(stack), found);
    let k = items.len() as int;
    if dir is Some {
        lemma_weight_of_part(stack, k);
        lemma_weight_of_listing(
            stack.take(k),
            joined(stack[k].dir, stack[k].tree.name),
            stack[k].tree.children,
        );
    }
}

proof fn lemma_searched(stack: Seq<Branch>, found: Seq<Seq<char>>)
    ensures
        searched(stack, found) == found + scenes_ahead(stack),
    decreases weight_ahead(stack),
{
    search_round_is_exact(stack, found);
    lemma_round_shrinks(stack, found);
    let (items, scenes, dir) = settled(items_of(stack), found);
    if dir is Some {
        lemma_searched(entered(stack, items.len() as int), scenes);
    }
}

/// A search finds every scene below the directory where it begins, each once
/// and under its path from there, in the order of the listings, and nothing
/// else; and it comes to an end, however deep the directories lie.
pub proof fn search_finds_every_scene(children: Seq<Tree>)
    ensures
        ({
            let root = Tree {
                name: Seq::empty(),
                kind: EntryKind::Directory,
                children,
            };
            searched(seq![Branch { dir: Seq::empty(), tree: root }], Seq::empty())
                == scenes_below(Seq::empty(), children)
        }),
{
    let root = Tree { name: Seq::empty(), kind: EntryKind::Directory, children };
    let stack = seq![Branch { dir: Seq::empty(), tree: root }];
    search_begins_with_everything(children);
    lemma_searched(stack, Seq::empty());
    assert(Seq::<Seq<char>>::empty() + scenes_ahead(stack) =~= scenes_ahead(stack));
}

/// Chunks of an upload are never taken for scenes: nothing below a directory
/// `temp_chunks` is found.
pub proof fn chunks_are_not_searched(dir: Seq<char>, tree: Tree)
    requires
        tree.name == "temp_chunks"@,
        tree.kind == EntryKind::Directory,
    ensures
        scenes_at(dir, tree) == Seq::<Seq<char>>::empty(),
{
}

/// What a search makes of an entry, wherever it lies: it goes into every
/// directory but those named `temp_chunks`, takes every file that is a scene,
/// and leaves everything else.
pub proof fn every_directory_is_entered(dir: Seq<char>, tree: Tree)
    ensures
        tree.kind == EntryKind::Directory && tree.name != "temp_chunks"@ ==> scenes_at(dir, tree)
            == scenes_below(joined(dir, tree.name), tree.children),
        tree.kind == EntryKind::Directory && tree.name == "temp_chunks"@ ==> scenes_at(
            dir,
            tree,
        ).len() == 0,
        tree.kind == EntryKind::File && is_scene_name(tree.name) ==> scenes_at(dir, tree) == seq![
            joined(dir, tree.name),
        ],
        tree.kind == EntryKind::File && !is_scene_name(tree.name) ==> scenes_at(dir, tree).len()
            == 0,
        tree.kind == EntryKind::Other ==> scenes_at(dir, tree).len() == 0,
{
}

/// The scenes among some entries and others behind them are the scenes among
/// the ones, followed by those among the others.
pub proof fn entries_are_searched_one_by_one(dir: Seq<char>, some: Seq<Tree>, more: Seq<Tree>)
    ensures
        scenes_below(dir, Seq::empty()).len() == 0,
        scenes_below(dir, some + more) == scenes_below(dir, some) + scenes_below(dir, more),
    decreases some.len(),
{
    if some.len() == 0 {
        assert(some + more =~= more);
        assert(scenes_below(dir, some) + scenes_below(dir, more) =~= scenes_below(dir, more));
    } else {
        assert((some + more).drop_first() =~= some.drop_first() + more);
        entries_are_searched_one_by_one(dir, some.drop_first(), more);
        assert(scenes_below(dir, some + more) =~= scenes_below(dir, some) + scenes_below(
            dir,
            more,
        ));
    }
}

/// The path of an entry at the top is its name; below, it is that of its
/// directory, a slash and its name.
pub proof fn paths_are_joined_by_slashes(dir: Seq<char>, name: Seq<char>)
    ensures
        joined(Seq::empty(), name) == name,
        dir.len() > 0 ==> joined(dir, name) == dir + "/"@ + name,
{
}

/// A scene has a name that ends with a dot and the five letters `blend`, each
/// small or capital, and has at least one character before them.
pub proof fn scenes_have_their_ending(name: Seq<char>)
    ensures
        is_scene_name(name) <==> name.len() >= 7 && ({
            let k = name.len() - 6;
            &&& name[k] == '.'
            &&& name[k + 1] == 'b' || name[k + 1] == 'B'
            &&& name[k + 2] == 'l' || name[k + 2] == 'L'
            &&& name[k + 3] == 'e' || name[k + 3] == 'E'
            &&& name[k + 4] == 'n' || name[k + 4] == 'N'
            &&& name[k + 5] == 'd' || name[k + 5] == 'D'
        }),
{
    reveal_strlit(".blend");
    let ending = ".blend"@;
    ending_letter_by_letter(name, ending);
    assert(ending.len() == 6);
    assert(ending[0] == '.' && ending[1] == 'b' && ending[2] == 'l' && ending[3] == 'e'
        && ending[4] == 'n' && ending[5] == 'd');
}

/// A file of this name lies at the end of these directories, each in the one
/// before it, and the first among the entries.
pub open spec fn lies_at(trees: Seq<Tree>, dirs: Seq<Seq<char>>, name: Seq<char>) -> bool
    decreases dirs.len(),
{
    if dirs.len() == 0 {
        exists|i: int|
            0 <= i < trees.len() && (#[trigger] trees[i]).kind == EntryKind::File && trees[i].name
                == name
    } else {
        exists|i: int|
            0 <= i < trees.len() && (#[trigger] trees[i]).kind == EntryKind::Directory
                && trees[i].name == dirs[0] && lies_at(trees[i].children, dirs.drop_first(), name)
    }
}

/// The path of a file at the end of directories that begin in `dir`.
pub open spec fn path_along(dir: Seq<char>, dirs: Seq<Seq<char>>, name: Seq<char>) -> Seq<char>
    decreases dirs.len(),
{
    if dirs.len() == 0 {
        joined(dir, name)
    } else {
        path_along(joined(dir, dirs[0]), dirs.drop_first(), name)
    }
}

proof fn lemma_scenes_of_entry(dir: Seq<char>, trees: Seq<Tree>, i: int, scene: Seq<char>)
    requires
        0 <= i < trees.len(),
        scenes_at(dir, trees[i]).contains(scene),
    ensures
        scenes_below(dir, trees).contains(scene),
    decreases trees.len(),
{
    let first = scenes_at(dir, trees[0]);
    let rest = scenes_below(dir, trees.drop_first());
    if i == 0 {
        let j = first.index_of(scene);
        assert((first + rest)[j] == scene);
    } else {
        assert(trees.drop_first()[i - 1] == trees[i]);
        lemma_scenes_of_entry(dir, trees.drop_first(), i - 1, scene);
        let j = rest.index_of(scene);
        assert((first + rest)[first.len() + j] == scene);
    }
}

proof fn lemma_entry_of_scene(dir: Seq<char>, trees: Seq<Tree>, scene: Seq<char>) -> (i: int)
    requires
        scenes_below(dir, trees).contains(scene),
    ensures
        0 <= i < trees.len(),
        scenes_at(dir, trees[i]).contains(scene),
    decreases trees.len(),
{
    let all = scenes_below(dir, trees);
    let first = scenes_at(dir, trees[0]);
    let rest = scenes_below(dir, trees.drop_first());
    let j = all.index_of(scene);
    if j < first.len() {
        assert(first[j] == scene);
        0
    } else {
        assert(rest[j - first.len()] == scene);
        let k = lemma_entry_of_scene(dir, trees.drop_first(), scene);
        assert(trees.drop_first()[k] == trees[k + 1]);
        k + 1
    }
}

/// A scene is found at any depth: a file with the name of one, at the end of
/// any row of directories of which none is named `temp_chunks`, is among the
/// scenes, under the path along these directories.
pub proof fn scene_is_found_at_any_depth(
    dir: Seq<char>,
    trees: Seq<Tree>,
    dirs: Seq<Seq<char>>,
    name: Seq<char>,
)
    requires
        lies_at(trees, dirs, name),
        is_scene_name(name),
        forall|i: int| 0 <= i < dirs.len() ==> #[trigger] dirs[i] != "temp_chunks"@,
    ensures
        scenes_below(dir, trees).contains(path_along(dir, dirs, name)),
    decreases dirs.len(),
{
    let path = path_along(dir, dirs, name);
    if dirs.len() == 0 {
        let i = choose|i: int|
            0 <= i < trees.len() && (#[trigger] trees[i]).kind == EntryKind::File && trees[i].name
                == name;
        assert(scenes_at(dir, trees[i])[0] == path);
        lemma_scenes_of_entry(dir, trees, i, path);
    } else {
        let i = choose|i: int|
            0 <= i < trees.len() && (#[trigger] trees[i]).kind == EntryKind::Directory
                && trees[i].name == dirs[0] && lies_at(
                trees[i].children,
                dirs.drop_first(),
                name,
            );
        assert forall|k: int| 0 <= k < dirs.len() - 1 implies #[trigger] dirs.drop_first()[k]
            != "temp_chunks"@ by {
            assert(dirs.drop_first()[k] == dirs[k + 1]);
        }
        scene_is_found_at_any_depth(
            joined(dir, dirs[0]),
            trees[i].children,
            dirs.drop_first(),
            name,
        );
        lemma_scenes_of_entry(dir, trees, i, path);
    }
}

/// Nothing else is found: every scene among the entries is a file with the
/// name of one, at the end of directories of which none is named
/// `temp_chunks`, and is found under the path along these.
pub proof fn only_scenes_are_found(dir: Seq<char>, trees: Seq<Tree>, scene: Seq<char>) -> (res: (
    Seq<Seq<char>>,
    Seq<char>,
))
    requires
        scenes_below(dir, trees).contains(scene),
    ensures
        scene == path_along(dir, res.0, res.1),
        lies_at(trees, res.0, res.1),
        is_scene_name(res.1),
        forall|i: int| 0 <= i < res.0.len() ==> #[trigger] res.0[i] != "temp_chunks"@,
    decreases trees,
{
    let i = lemma_entry_of_scene(dir, trees, scene);
    let tree = trees[i];
    if tree.kind == EntryKind::Directory {
        let (dirs, name) = only_scenes_are_found(joined(dir, tree.name), tree.children, scene);
        let all = seq![tree.name] + dirs;
        assert(all.drop_first() =~= dirs);
        assert(all[0] == tree.name);
        assert forall|k: int| 0 <= k < all.len() implies #[trigger] all[k] != "temp_chunks"@ by {
            if k > 0 {
                assert(all[k] == dirs[k - 1]);
            }
        }
        assert(lies_at(trees, all, name));
        (all, name)
    } else {
        let found = scenes_at(dir, tree);
        let j = found.index_of(scene);
        assert(found[j] == scene);
        assert(trees[i].kind == EntryKind::File);
        (Seq::empty(), tree.name)
    }
}

} // verus!
