//! Channel resolution: a subscriber's channel names expand, depth first and
//! with a visited set, into a deduplicated item list whose required channels
//! come before the channels that name them; each resolved channel then yields
//! its file set.

use vstd::prelude::*;
use vstd::set_lib::lemma_len_subset;

use crate::batch::{clone_opt_string, clone_opt_strings, clone_string, clone_strings};
use crate::structs::{
    Directory, DirectoryV, File, FileV, Project, ProjectItem, ProjectItemV, ProjectV, strs_view,
};

verus! {

/// Clones a file entry, keeping its model.
pub fn clone_file(f: &File) -> (r: File)
    ensures
        r@ == f@,
{
    File {
        path: clone_string(&f.path),
        cc_path: clone_opt_string(&f.cc_path),
        minify: f.minify,
        deflate_trickery: f.deflate_trickery,
        bundle: f.bundle,
        require_prefix: clone_opt_string(&f.require_prefix),
        prefix_exclusions: clone_opt_strings(&f.prefix_exclusions),
    }
}

/// Clones a directory entry, keeping its model.
pub fn clone_directory(d: &Directory) -> (r: Directory)
    ensures
        r@ == d@,
{
    Directory {
        path: clone_string(&d.path),
        minify: d.minify,
        deflate_trickery: d.deflate_trickery,
        require_prefix: clone_opt_string(&d.require_prefix),
        prefix_exclusions: clone_opt_strings(&d.prefix_exclusions),
    }
}

/// Clones a list of file entries, keeping their models.
pub fn clone_files(v: &Vec<File>) -> (r: Vec<File>)
    ensures
        r@.map_values(|f: File| f@) =~= v@.map_values(|f: File| f@),
{
    let mut r: Vec<File> = Vec::new();
    let mut i: usize = 0;
    while i < v.len()
        invariant
            i <= v.len(),
            r@.len() == i,
            forall|j: int| 0 <= j < i ==> r@[j]@ == v@[j]@,
        decreases v.len() - i,
    {
        r.push(clone_file(&v[i]));
        i = i + 1;
    }
    r
}

/// Clones a list of directory entries, keeping their models.
pub fn clone_directories(v: &Vec<Directory>) -> (r: Vec<Directory>)
    ensures
        r@.map_values(|d: Directory| d@) =~= v@.map_values(|d: Directory| d@),
{
    let mut r: Vec<Directory> = Vec::new();
    let mut i: usize = 0;
    while i < v.len()
        invariant
            i <= v.len(),
            r@.len() == i,
            forall|j: int| 0 <= j < i ==> r@[j]@ == v@[j]@,
        decreases v.len() - i,
    {
        r.push(clone_directory(&v[i]));
        i = i + 1;
    }
    r
}

/// Clones a channel, keeping its model.
pub fn clone_item(it: &ProjectItem) -> (r: ProjectItem)
    ensures
        r@ == it@,
{
    let r = ProjectItem {
        item_type: it.item_type,
        files: match &it.files {
            Some(fs) => Some(clone_files(fs)),
            None => None,
        },
        channel_name: clone_string(&it.channel_name),
        required_channels: clone_opt_strings(&it.required_channels),
        directories: match &it.directories {
            Some(ds) => Some(clone_directories(ds)),
            None => None,
        },
        minify: it.minify,
        deflate_trickery: it.deflate_trickery,
        require_prefix: clone_opt_string(&it.require_prefix),
        prefix_exclusions: clone_opt_strings(&it.prefix_exclusions),
    };
    assert(r@ == it@);
    r
}

/// The channel names of a project's items, in order.
pub open spec fn item_names(items: Seq<ProjectItemV>) -> Seq<Seq<char>> {
    items.map_values(|i: ProjectItemV| i.channel_name)
}

/// The first item carrying the given channel name.
pub open spec fn find_item_spec(items: Seq<ProjectItemV>, name: Seq<char>) -> Option<ProjectItemV>
    decreases items.len(),
{
    if items.len() == 0 {
        None
    } else if items[0].channel_name == name {
        Some(items[0])
    } else {
        find_item_spec(items.drop_first(), name)
    }
}

/// A found item carries the name it was found under and belongs to the list.
pub proof fn lemma_find_item(items: Seq<ProjectItemV>, name: Seq<char>)
    requires
        find_item_spec(items, name) is Some,
    ensures
        find_item_spec(items, name)->Some_0.channel_name == name,
        items.contains(find_item_spec(items, name)->Some_0),
    decreases items.len(),
{
    if items.len() == 0 {
    } else if items[0].channel_name == name {
        assert(items.contains(items[0]));
    } else {
        lemma_find_item(items.drop_first(), name);
        let found = find_item_spec(items.drop_first(), name)->Some_0;
        assert(exists|j: int| 0 <= j < items.drop_first().len() && items.drop_first()[j] == found);
        let j = choose|j: int|
            0 <= j < items.drop_first().len() && items.drop_first()[j] == found;
        assert(items[j + 1] == found);
    }
}

/// Finds the first channel of the project with the given name.
pub fn find_item(project: &Project, name: &String) -> (r: Option<ProjectItem>)
    ensures
        r is Some <==> find_item_spec(project@.items, name@) is Some,
        r is Some ==> r->0@ == find_item_spec(project@.items, name@)->Some_0,
{
    let mut i: usize = 0;
    proof {
        assert(project@.items.skip(0) =~= project@.items);
    }
    while i < project.items.len()
        invariant
            i <= project.items.len(),
            find_item_spec(project@.items, name@) == find_item_spec(
                project@.items.skip(i as int),
                name@,
            ),
        decreases project.items.len() - i,
    {
        let ghost rest = project@.items.skip(i as int);
        assert(rest[0] == project@.items[i as int]);
        if project.items[i].channel_name.eq(name) {
            return Some(clone_item(&project.items[i]));
        }
        assert(rest.drop_first() =~= project@.items.skip(i as int + 1));
        i = i + 1;
    }
    assert(project@.items.skip(project.items.len() as int).len() == 0);
    None
}

/// Whether a list of strings holds the given string.
pub fn strs_contain(v: &Vec<String>, x: &String) -> (r: bool)
    ensures
        r == strs_view(v).contains(x@),
{
    let mut i: usize = 0;
    while i < v.len()
        invariant
            i <= v.len(),
            forall|j: int| 0 <= j < i ==> strs_view(v)[j] != x@,
        decreases v.len() - i,
    {
        if v[i].eq(x) {
            assert(strs_view(v)[i as int] == x@);
            return true;
        }
        i = i + 1;
    }
    false
}

/// A member of a prefix is a member of the whole.
proof fn lemma_contains_prefix(a: Seq<Seq<char>>, b: Seq<Seq<char>>)
    requires
        b.len() >= a.len(),
        b.take(a.len() as int) =~= a,
    ensures
        forall|x: Seq<char>| a.contains(x) ==> b.contains(x),
{
    assert forall|x: Seq<char>| a.contains(x) implies b.contains(x) by {
        let i = choose|i: int| 0 <= i < a.len() && a[i] == x;
        assert(b.take(a.len() as int)[i] == a[i]);
        assert(b[i] == x);
    }
}

/// A distinct visited list drawn from the item names is no longer than the
/// name list itself.
proof fn lemma_visited_bound(visited: Seq<Seq<char>>, names: Seq<Seq<char>>)
    requires
        visited.no_duplicates(),
        forall|i: int| 0 <= i < visited.len() ==> names.contains(#[trigger] visited[i]),
    ensures
        visited.len() <= names.len(),
{
    visited.unique_seq_to_set();
    names.lemma_cardinality_of_set();
    vstd::seq_lib::seq_to_set_is_finite(names);
    vstd::seq_lib::seq_to_set_is_finite(visited);
    assert(visited.to_set().subset_of(names.to_set())) by {
        assert forall|x: Seq<char>| visited.to_set().contains(x) implies names.to_set().contains(
            x,
        ) by {
            assert(visited.contains(x));
        }
    }
    lemma_len_subset(visited.to_set(), names.to_set());
}

/// Channel `a` of the project names `b` among its required channels.
pub open spec fn requires_direct(items: Seq<ProjectItemV>, a: Seq<char>, b: Seq<char>) -> bool {
    exists|i: int|
        0 <= i < items.len() && (#[trigger] items[i]).channel_name == a
            && items[i].required_channels is Some && items[i].required_channels->Some_0.contains(b)
}

/// `b` is reachable from `a` over required-channel edges in at most `fuel`
/// steps.
pub open spec fn reaches(items: Seq<ProjectItemV>, a: Seq<char>, b: Seq<char>, fuel: nat) -> bool
    decreases fuel,
{
    a == b || (fuel > 0 && exists|c: Seq<char>|
        #[trigger] requires_direct(items, a, c) && reaches(items, c, b, (fuel - 1) as nat))
}

/// More fuel never loses reachability.
pub proof fn lemma_reaches_mono(
    items: Seq<ProjectItemV>,
    a: Seq<char>,
    b: Seq<char>,
    f1: nat,
    f2: nat,
)
    requires
        reaches(items, a, b, f1),
        f1 <= f2,
    ensures
        reaches(items, a, b, f2),
    decreases f1,
{
    if a == b {
    } else {
        let c = choose|c: Seq<char>|
            #[trigger] requires_direct(items, a, c) && reaches(items, c, b, (f1 - 1) as nat);
        lemma_reaches_mono(items, c, b, (f1 - 1) as nat, (f2 - 1) as nat);
        assert(requires_direct(items, a, c) && reaches(items, c, b, (f2 - 1) as nat));
    }
}

/// One required-channel edge prepends to a reachability chain.
pub proof fn lemma_reaches_step(
    items: Seq<ProjectItemV>,
    a: Seq<char>,
    c: Seq<char>,
    b: Seq<char>,
    fuel: nat,
)
    requires
        requires_direct(items, a, c),
        reaches(items, c, b, fuel),
    ensures
        reaches(items, a, b, (fuel + 1) as nat),
{
    assert(requires_direct(items, a, c) && reaches(items, c, b, ((fuel + 1) - 1) as nat));
}

/// The channel names of a resolved item list, in order.
pub open spec fn res_names(items: Seq<ProjectItem>) -> Seq<Seq<char>> {
    items.map_values(|it: ProjectItem| it@.channel_name)
}

/// The channel names `it` on its required list.
pub open spec fn names_required(it: ProjectItemV, n: Seq<char>) -> bool {
    it.required_channels is Some && it.required_channels->Some_0.contains(n)
}

/// The required-channel graph has no cycle.
pub open spec fn acyclic_requires(items: Seq<ProjectItemV>) -> bool {
    forall|a: Seq<char>, b: Seq<char>|
        #[trigger] requires_direct(items, a, b) ==> !reaches(items, b, a, items.len() as nat)
}

/// Expands the requested channel names, depth first, into a deduplicated
/// item list. Unknown names are skipped; `encountered` is the visited set,
/// and every requested name that names a channel is visited afterwards.
///
/// Resolution respects the required-channel order: on a project whose
/// required-channel graph has no cycle, every channel a resolved item names
/// among its `required_channels` stands earlier in the list, so definitions
/// precede the channels that need them. On a cyclic project resolution still
/// terminates (the visited set admits each channel once), and each required
/// channel either precedes its dependent or reaches back to it through the
/// cycle.
pub fn get_full_channel_list(
    channels: Vec<String>,
    project: &Project,
    encountered: &mut Vec<String>,
) -> (res: Vec<ProjectItem>)
    requires
        strs_view(old(encountered)).no_duplicates(),
        forall|i: int|
            0 <= i < old(encountered)@.len() ==> item_names(project@.items).contains(
                #[trigger] strs_view(old(encountered))[i],
            ),
    ensures
        strs_view(final(encountered)).no_duplicates(),
        forall|i: int|
            0 <= i < final(encountered)@.len() ==> item_names(project@.items).contains(
                #[trigger] strs_view(final(encountered))[i],
            ),
        final(encountered)@.len() >= old(encountered)@.len(),
        strs_view(final(encountered)).take(old(encountered)@.len() as int) =~= strs_view(
            old(encountered),
        ),
        forall|k: int|
            0 <= k < res@.len() ==> project@.items.contains(#[trigger] res@[k]@),
        forall|k: int|
            0 <= k < res@.len() ==> strs_view(final(encountered)).contains(
                #[trigger] res@[k]@.channel_name,
            ),
        forall|i: int|
            0 <= i < channels@.len() && find_item_spec(
                project@.items,
                #[trigger] strs_view(&channels)[i],
            ) is Some ==> strs_view(final(encountered)).contains(strs_view(&channels)[i]),
        forall|x: Seq<char>|
            strs_view(final(encountered)).contains(x) <==> (strs_view(old(encountered)).contains(
                x,
            ) || res_names(res@).contains(x)),
        res_names(res@).no_duplicates(),
        forall|n: Seq<char>|
            res_names(res@).contains(n) ==> !strs_view(old(encountered)).contains(n),
        forall|k: int|
            #![trigger res@[k]]
            0 <= k < res@.len() ==> exists|i: int|
                0 <= i < channels@.len() && #[trigger] reaches(
                    project@.items,
                    strs_view(&channels)[i],
                    res@[k]@.channel_name,
                    (project@.items.len() - old(encountered)@.len()) as nat,
                ),
        forall|k: int, n: Seq<char>|
            0 <= k < res@.len() && #[trigger] names_required(res@[k]@, n) && find_item_spec(
                project@.items,
                n,
            ) is Some ==> strs_view(old(encountered)).contains(n) || res_names(
                res@.take(k),
            ).contains(n) || reaches(
                project@.items,
                n,
                res@[k]@.channel_name,
                (project@.items.len() - old(encountered)@.len()) as nat,
            ),
        old(encountered)@.len() == 0 && acyclic_requires(project@.items) ==> forall|
            k: int,
            n: Seq<char>,
        |
            0 <= k < res@.len() && #[trigger] names_required(res@[k]@, n) && find_item_spec(
                project@.items,
                n,
            ) is Some ==> res_names(res@.take(k)).contains(n),
    decreases project@.items.len() - old(encountered)@.len(),
{
    proof {
        lemma_visited_bound(strs_view(encountered), item_names(project@.items));
        assert(item_names(project@.items).len() == project@.items.len());
    }
    let ghost itemsv = project@.items;
    let ghost entry_len = encountered@.len() as int;
    let ghost fuel_out = (itemsv.len() - entry_len) as nat;
    let mut cs: Vec<ProjectItem> = Vec::new();
    let mut i: usize = 0;
    while i < channels.len()
        invariant
            i <= channels.len(),
            itemsv == project@.items,
            forall|j: int| 0 <= j < cs@.len() ==> itemsv.contains(#[trigger] cs@[j]@),
            forall|j: int|
                #![trigger cs@[j]]
                0 <= j < cs@.len() ==> exists|i2: int|
                    0 <= i2 < channels@.len() && cs@[j]@.channel_name == #[trigger] strs_view(
                        &channels,
                    )[i2],
            forall|j: int|
                0 <= j < i ==> (find_item_spec(itemsv, #[trigger] strs_view(&channels)[j]) is Some
                    ==> exists|k: int|
                    0 <= k < cs@.len() && (#[trigger] cs@[k])@.channel_name == strs_view(
                        &channels,
                    )[j]),
        decreases channels.len() - i,
    {
        proof {
            assert(strs_view(&channels)[i as int] == channels@[i as int]@);
        }
        match find_item(project, &channels[i]) {
            Some(item) => {
                proof {
                    lemma_find_item(itemsv, channels@[i as int]@);
                }
                let ghost cs0 = cs@;
                cs.push(item);
                proof {
                    assert(cs@[cs@.len() - 1]@.channel_name == strs_view(&channels)[i as int]);
                    assert forall|j: int|
                        0 <= j < i + 1 && find_item_spec(
                            itemsv,
                            #[trigger] strs_view(&channels)[j],
                        ) is Some implies exists|k: int|
                        0 <= k < cs@.len() && (#[trigger] cs@[k])@.channel_name == strs_view(
                            &channels,
                        )[j] by {
                        if j < i {
                            let k = choose|k: int|
                                0 <= k < cs0.len() && (#[trigger] cs0[k])@.channel_name
                                    == strs_view(&channels)[j];
                            assert(cs@[k]@.channel_name == strs_view(&channels)[j]);
                        } else {
                            assert(cs@[cs@.len() - 1]@.channel_name == strs_view(&channels)[j]);
                        }
                    }
                }
            },
            None => {},
        }
        i = i + 1;
    }
    let mut res: Vec<ProjectItem> = Vec::new();
    let mut j: usize = 0;
    proof {
        assert(strs_view(encountered).take(entry_len) =~= strs_view(old(encountered)));
        assert(res_names(res@).len() == 0);
        assert(res_names(res@).no_duplicates());
    }
    while j < cs.len()
        invariant
            j <= cs.len(),
            itemsv == project@.items,
            fuel_out == (itemsv.len() - entry_len) as nat,
            entry_len <= itemsv.len(),
            strs_view(encountered).no_duplicates(),
            forall|i2: int|
                0 <= i2 < encountered@.len() ==> item_names(itemsv).contains(
                    #[trigger] strs_view(encountered)[i2],
                ),
            encountered@.len() >= entry_len,
            entry_len == old(encountered)@.len(),
            strs_view(encountered).take(entry_len) =~= strs_view(old(encountered)),
            forall|k: int| 0 <= k < cs@.len() ==> itemsv.contains(#[trigger] cs@[k]@),
            forall|k: int|
                #![trigger cs@[k]]
                0 <= k < cs@.len() ==> exists|i2: int|
                    0 <= i2 < channels@.len() && cs@[k]@.channel_name == #[trigger] strs_view(
                        &channels,
                    )[i2],
            forall|k: int| 0 <= k < res@.len() ==> itemsv.contains(#[trigger] res@[k]@),
            forall|k: int|
                0 <= k < res@.len() ==> strs_view(encountered).contains(
                    #[trigger] res@[k]@.channel_name,
                ),
            forall|k: int|
                0 <= k < j ==> strs_view(encountered).contains(#[trigger] cs@[k]@.channel_name),
            forall|x: Seq<char>|
                strs_view(encountered).contains(x) <==> (strs_view(old(encountered)).contains(x)
                    || res_names(res@).contains(x)),
            res_names(res@).no_duplicates(),
            forall|n: Seq<char>|
                res_names(res@).contains(n) ==> !strs_view(old(encountered)).contains(n),
            forall|k: int|
                #![trigger res@[k]]
                0 <= k < res@.len() ==> exists|i2: int|
                    0 <= i2 < channels@.len() && #[trigger] reaches(
                        itemsv,
                        strs_view(&channels)[i2],
                        res@[k]@.channel_name,
                        fuel_out,
                    ),
            forall|k: int, n: Seq<char>|
                0 <= k < res@.len() && #[trigger] names_required(res@[k]@, n) && find_item_spec(
                    itemsv,
                    n,
                ) is Some ==> strs_view(old(encountered)).contains(n) || res_names(
                    res@.take(k),
                ).contains(n) || reaches(itemsv, n, res@[k]@.channel_name, fuel_out),
        decreases cs.len() - j,
    {
        let name = clone_string(&cs[j].channel_name);
        let ghost cname = cs@[j as int]@.channel_name;
        if !strs_contain(encountered, &name) {
            let ghost before = strs_view(encountered);
            encountered.push(name);
            proof {
                assert(strs_view(encountered) =~= before.push(cname));
                assert(strs_view(encountered).no_duplicates()) by {
                    assert(forall|a: int|
                        0 <= a < before.len() ==> strs_view(encountered)[a] == before[a]);
                    assert(strs_view(encountered)[before.len() as int] == cname);
                    assert(!before.contains(cname));
                }
                assert(item_names(itemsv).contains(cname)) by {
                    assert(exists|k: int|
                        0 <= k < itemsv.len() && itemsv[k] == cs@[j as int]@);
                    let k = choose|k: int| 0 <= k < itemsv.len() && itemsv[k] == cs@[j as int]@;
                    assert(item_names(itemsv)[k] == cname);
                }
            }
            let ghost mid = strs_view(encountered);
            let ghost res0 = res@;
            proof {
                lemma_visited_bound(strs_view(encountered), item_names(itemsv));
            }
            let ghost fuel_sub = (itemsv.len() - mid.len()) as nat;
            let reqs = match &cs[j].required_channels {
                Some(r) => clone_strings(r),
                None => Vec::new(),
            };
            let ghost reqnames = strs_view(&reqs);
            proof {
                if cs@[j as int]@.required_channels is Some {
                    assert(reqnames =~= cs@[j as int]@.required_channels->Some_0);
                }
            }
            let mut sub = get_full_channel_list(reqs, project, encountered);
            let ghost subitems = sub@;
            res.append(&mut sub);
            res.push(clone_item(&cs[j]));
            proof {
                let after = strs_view(encountered);
                lemma_contains_prefix(mid, after);
                lemma_contains_prefix(before, after);
                assert(res@ =~= res0 + subitems + seq![res@[res@.len() - 1]]);
                assert(res@[res@.len() - 1]@ == cs@[j as int]@);
                assert(after.take(entry_len) =~= strs_view(old(encountered))) by {
                    assert(forall|k: int|
                        0 <= k < mid.len() ==> after.take(mid.len() as int)[k] == after[k]);
                    assert(forall|k: int| 0 <= k < entry_len ==> after[k] == mid[k]);
                    assert(forall|k: int| 0 <= k < entry_len ==> mid[k] == before[k]);
                    assert(forall|k: int|
                        0 <= k < entry_len ==> before.take(entry_len)[k] == before[k]);
                }
                assert(after.contains(cname)) by {
                    assert(mid[before.len() as int] == cname);
                    assert(mid.contains(cname));
                }
                // the edge from this channel to each of its required names
                assert forall|n: Seq<char>| reqnames.contains(n) implies requires_direct(
                    itemsv,
                    cname,
                    n,
                ) by {
                    let ki = choose|ki: int| 0 <= ki < itemsv.len() && itemsv[ki] == cs@[j as int]@;
                    assert((itemsv[ki]).channel_name == cname);
                    assert(itemsv[ki].required_channels is Some);
                    assert(itemsv[ki].required_channels->Some_0.contains(n));
                }
                // index bookkeeping for the combined result
                assert(forall|k: int| 0 <= k < res0.len() ==> res@[k] == res0[k]);
                assert(forall|k: int|
                    0 <= k < subitems.len() ==> res@[res0.len() + k] == subitems[k]);
                assert(forall|k: int|
                    0 <= k < res0.len() ==> #[trigger] res_names(res@)[k] == res_names(res0)[k]);
                // membership of names in the combined result
                assert forall|x: Seq<char>| res_names(res@).contains(x) implies (res_names(
                    res0,
                ).contains(x) || res_names(subitems).contains(x) || x == cname) by {
                    let k = choose|k: int|
                        0 <= k < res_names(res@).len() && res_names(res@)[k] == x;
                    if k < res0.len() {
                        assert(res_names(res0)[k] == x);
                    } else if k < res0.len() + subitems.len() {
                        assert(res_names(subitems)[k - res0.len()] == x);
                    } else {
                        assert(res@[k]@.channel_name == cname);
                    }
                }
                assert forall|x: Seq<char>|
                    res_names(res0).contains(x) || res_names(subitems).contains(x) || x
                        == cname implies res_names(res@).contains(x) by {
                    if res_names(res0).contains(x) {
                        let k = choose|k: int|
                            0 <= k < res_names(res0).len() && res_names(res0)[k] == x;
                        assert(res_names(res@)[k] == x);
                    } else if res_names(subitems).contains(x) {
                        let k = choose|k: int|
                            0 <= k < res_names(subitems).len() && res_names(subitems)[k] == x;
                        assert(res_names(res@)[res0.len() + k] == x);
                    } else {
                        assert(res_names(res@)[res@.len() - 1] == cname);
                    }
                }
                // distinctness of the combined result's names
                assert(res_names(subitems).no_duplicates());
                assert(forall|n2: Seq<char>|
                    res_names(subitems).contains(n2) ==> !mid.contains(n2));
                assert(forall|n2: Seq<char>|
                    res_names(res0).contains(n2) ==> before.contains(n2));
                assert(forall|n2: Seq<char>| before.contains(n2) ==> mid.contains(n2)) by {
                    assert(forall|a2: int|
                        0 <= a2 < before.len() ==> mid[a2] == before[a2]);
                    assert forall|n2: Seq<char>| before.contains(n2) implies mid.contains(
                        n2,
                    ) by {
                        let a2 = choose|a2: int| 0 <= a2 < before.len() && before[a2] == n2;
                        assert(mid[a2] == n2);
                    }
                }
                assert(!res_names(res0).contains(cname));
                assert(!res_names(subitems).contains(cname)) by {
                    assert(mid.contains(cname));
                }
                assert(res_names(res@).no_duplicates()) by {
                    assert forall|a2: int, b2: int|
                        0 <= a2 < b2 < res_names(res@).len() implies res_names(res@)[a2]
                        != res_names(res@)[b2] by {
                        let la = res0.len() as int;
                        let lb = la + subitems.len() as int;
                        if b2 < la {
                            assert(res_names(res@)[a2] == res_names(res0)[a2]);
                            assert(res_names(res@)[b2] == res_names(res0)[b2]);
                        } else if b2 < lb {
                            assert(res_names(res@)[b2] == res_names(subitems)[b2 - la]);
                            assert(res_names(subitems).contains(res_names(subitems)[b2 - la]));
                            if a2 < la {
                                assert(res_names(res@)[a2] == res_names(res0)[a2]);
                                assert(res_names(res0).contains(res_names(res0)[a2]));
                                assert(mid.contains(res_names(res0)[a2]));
                            } else {
                                assert(res_names(res@)[a2] == res_names(subitems)[a2 - la]);
                            }
                        } else {
                            assert(res_names(res@)[b2] == cname);
                            if a2 < la {
                                assert(res_names(res@)[a2] == res_names(res0)[a2]);
                                assert(res_names(res0).contains(res_names(res0)[a2]));
                            } else {
                                assert(res_names(res@)[a2] == res_names(subitems)[a2 - la]);
                                assert(res_names(subitems).contains(res_names(subitems)[a2 - la]));
                            }
                        }
                    }
                }
                assert forall|n2: Seq<char>| res_names(res@).contains(n2) implies !strs_view(
                    old(encountered),
                ).contains(n2) by {
                    if res_names(res0).contains(n2) {
                    } else if res_names(subitems).contains(n2) {
                        assert(!mid.contains(n2));
                        assert(forall|a2: int|
                            0 <= a2 < entry_len ==> mid[a2] == strs_view(old(encountered))[a2]);
                        if strs_view(old(encountered)).contains(n2) {
                            let a2 = choose|a2: int|
                                0 <= a2 < strs_view(old(encountered)).len() && strs_view(
                                    old(encountered),
                                )[a2] == n2;
                            assert(mid[a2] == n2);
                        }
                    } else {
                        assert(n2 == cname);
                        assert(!before.contains(cname));
                        assert(forall|a2: int|
                            0 <= a2 < entry_len ==> before[a2] == strs_view(old(encountered))[
                                a2
                            ]);
                        if strs_view(old(encountered)).contains(n2) {
                            let a2 = choose|a2: int|
                                0 <= a2 < strs_view(old(encountered)).len() && strs_view(
                                    old(encountered),
                                )[a2] == n2;
                            assert(before[a2] == n2);
                        }
                    }
                }
                // the visited set after this iteration
                assert forall|x: Seq<char>| strs_view(encountered).contains(x) implies (strs_view(
                    old(encountered),
                ).contains(x) || res_names(res@).contains(x)) by {
                    if mid.contains(x) {
                        if before.contains(x) {
                        } else {
                            assert(x == cname) by {
                                let k = choose|k: int| 0 <= k < mid.len() && mid[k] == x;
                                if k < before.len() {
                                    assert(before[k] == x);
                                }
                            }
                        }
                    }
                }
                assert forall|x: Seq<char>|
                    strs_view(old(encountered)).contains(x) || res_names(res@).contains(
                        x,
                    ) implies strs_view(encountered).contains(x) by {
                    if strs_view(old(encountered)).contains(x) {
                        assert(before.contains(x));
                    } else if res_names(res0).contains(x) {
                        assert(before.contains(x));
                    } else if res_names(subitems).contains(x) {
                    } else {
                        assert(after.contains(cname));
                    }
                }
                // fuel arithmetic for the recursive results
                assert(mid.len() == before.len() + 1);
                assert(fuel_sub + 1 <= fuel_out);
                // reachability of every emitted channel from the requested names
                let i0 = choose|i0: int|
                    0 <= i0 < channels@.len() && cs@[j as int]@.channel_name == #[trigger] strs_view(
                        &channels,
                    )[i0];
                assert forall|k: int| #![trigger res@[k]] 0 <= k < res@.len() implies exists|
                    i2: int,
                |
                    0 <= i2 < channels@.len() && #[trigger] reaches(
                        itemsv,
                        strs_view(&channels)[i2],
                        (res@[k])@.channel_name,
                        fuel_out,
                    ) by {
                    if k < res0.len() {
                        assert(res@[k] == res0[k]);
                    } else if k < res0.len() + subitems.len() {
                        let k2 = k - res0.len();
                        assert(res@[k] == subitems[k2]);
                        let r0 = choose|r0: int|
                            0 <= r0 < reqnames.len() && #[trigger] reaches(
                                itemsv,
                                reqnames[r0],
                                (subitems[k2])@.channel_name,
                                fuel_sub,
                            );
                        assert(reqnames.contains(reqnames[r0]));
                        lemma_reaches_step(
                            itemsv,
                            cname,
                            reqnames[r0],
                            subitems[k2]@.channel_name,
                            fuel_sub,
                        );
                        lemma_reaches_mono(
                            itemsv,
                            cname,
                            subitems[k2]@.channel_name,
                            (fuel_sub + 1) as nat,
                            fuel_out,
                        );
                        assert(reaches(
                            itemsv,
                            strs_view(&channels)[i0],
                            res@[k]@.channel_name,
                            fuel_out,
                        ));
                    } else {
                        assert(res@[k]@.channel_name == cname);
                        assert(reaches(itemsv, strs_view(&channels)[i0], cname, fuel_out));
                    }
                }
                // the precedence bookkeeping for every emitted item
                assert forall|k: int, n: Seq<char>|
                    0 <= k < res@.len() && #[trigger] names_required(res@[k]@, n)
                        && find_item_spec(itemsv, n) is Some implies (strs_view(
                    old(encountered),
                ).contains(n) || res_names(res@.take(k)).contains(n) || reaches(
                    itemsv,
                    n,
                    res@[k]@.channel_name,
                    fuel_out,
                )) by {
                    if k < res0.len() {
                        assert(res@[k] == res0[k]);
                        assert(res@.take(k) =~= res0.take(k));
                        if res_names(res0.take(k)).contains(n) {
                            let ki = choose|ki: int|
                                0 <= ki < res_names(res0.take(k)).len() && res_names(
                                    res0.take(k),
                                )[ki] == n;
                            assert(res_names(res@.take(k))[ki] == n);
                        }
                    } else if k < res0.len() + subitems.len() {
                        let k2 = k - res0.len();
                        assert(res@[k] == subitems[k2]);
                        assert(names_required(subitems[k2]@, n));
                        if mid.contains(n) {
                            if before.contains(n) {
                                if strs_view(old(encountered)).contains(n) {
                                } else {
                                    assert(res_names(res0).contains(n));
                                    let ki = choose|ki: int|
                                        0 <= ki < res_names(res0).len() && res_names(res0)[ki]
                                            == n;
                                    assert(res@.take(k)[ki] == res0[ki]);
                                    assert(res_names(res@.take(k))[ki] == n);
                                }
                            } else {
                                assert(n == cname) by {
                                    let ki = choose|ki: int| 0 <= ki < mid.len() && mid[ki] == n;
                                    if ki < before.len() {
                                        assert(before[ki] == n);
                                    }
                                }
                                let r0 = choose|r0: int|
                                    0 <= r0 < reqnames.len() && #[trigger] reaches(
                                        itemsv,
                                        reqnames[r0],
                                        (subitems[k2])@.channel_name,
                                        fuel_sub,
                                    );
                                assert(reqnames.contains(reqnames[r0]));
                                lemma_reaches_step(
                                    itemsv,
                                    cname,
                                    reqnames[r0],
                                    subitems[k2]@.channel_name,
                                    fuel_sub,
                                );
                                lemma_reaches_mono(
                                    itemsv,
                                    cname,
                                    subitems[k2]@.channel_name,
                                    (fuel_sub + 1) as nat,
                                    fuel_out,
                                );
                            }
                        } else if res_names(subitems.take(k2)).contains(n) {
                            let ki = choose|ki: int|
                                0 <= ki < res_names(subitems.take(k2)).len() && res_names(
                                    subitems.take(k2),
                                )[ki] == n;
                            assert(res@.take(k)[res0.len() + ki] == subitems[ki]);
                            assert(res_names(res@.take(k))[res0.len() + ki] == n);
                        } else {
                            assert(reaches(itemsv, n, subitems[k2]@.channel_name, fuel_sub));
                            lemma_reaches_mono(
                                itemsv,
                                n,
                                subitems[k2]@.channel_name,
                                fuel_sub,
                                fuel_out,
                            );
                        }
                    } else {
                        assert(res@[k]@ == cs@[j as int]@);
                        assert(reqnames.contains(n)) by {
                            let ri = choose|ri: int|
                                0 <= ri < cs@[j as int]@.required_channels->Some_0.len()
                                    && cs@[j as int]@.required_channels->Some_0[ri] == n;
                            assert(reqnames[ri] == n);
                        }
                        let ri = choose|ri: int| 0 <= ri < reqnames.len() && reqnames[ri] == n;
                        assert(after.contains(n)) by {
                            assert(find_item_spec(itemsv, reqnames[ri]) is Some);
                        }
                        if strs_view(old(encountered)).contains(n) {
                        } else {
                            assert(res_names(res@).contains(n));
                            let ki = choose|ki: int|
                                0 <= ki < res_names(res@).len() && res_names(res@)[ki] == n;
                            if ki < k {
                                assert(res@.take(k)[ki] == res@[ki]);
                                assert(res_names(res@.take(k))[ki] == n);
                            } else {
                                assert(ki == k);
                                assert(n == cname);
                                assert(reaches(itemsv, n, cname, fuel_out));
                            }
                        }
                    }
                }
            }
        }
        j = j + 1;
    }
    proof {
        if entry_len == 0 && acyclic_requires(itemsv) {
            assert forall|k: int, n: Seq<char>|
                0 <= k < res@.len() && #[trigger] names_required(res@[k]@, n) && find_item_spec(
                    itemsv,
                    n,
                ) is Some implies res_names(res@.take(k)).contains(n) by {
                assert(strs_view(old(encountered)).len() == 0);
                if reaches(itemsv, n, res@[k]@.channel_name, fuel_out) {
                    assert(requires_direct(itemsv, res@[k]@.channel_name, n)) by {
                        let ki = choose|ki: int|
                            0 <= ki < itemsv.len() && itemsv[ki] == res@[k]@;
                        assert((itemsv[ki]).channel_name == res@[k]@.channel_name);
                    }
                    assert(fuel_out == itemsv.len());
                    assert(!reaches(itemsv, n, res@[k]@.channel_name, itemsv.len() as nat));
                    assert(false);
                }
            }
        }
    }
    res
}

/// The absolute form of a path relative to the root.
pub open spec fn join_path_spec(root: Seq<char>, rel: Seq<char>) -> Seq<char> {
    root + "/"@ + rel
}

/// Joins a relative path onto the root directory.
pub fn join_path(root: &str, rel: &str) -> (r: String)
    ensures
        r@ == join_path_spec(root@, rel@),
{
    let mut out = root.to_owned();
    out.append("/");
    out.append(rel);
    out
}

/// First-occurrence deduplication of a list of paths.
pub open spec fn dedup_spec(s: Seq<Seq<char>>) -> Seq<Seq<char>>
    decreases s.len(),
{
    if s.len() == 0 {
        Seq::empty()
    } else {
        let front = dedup_spec(s.drop_last());
        if front.contains(s.last()) {
            front
        } else {
            front.push(s.last())
        }
    }
}

/// The files of a resolved channel: every file of every directory listing,
/// then the explicitly listed files joined onto the root, deduplicated by
/// path, first occurrence kept. `dir_listings` holds, for each directory of
/// the channel in order, the absolute paths of the regular files under it.
pub fn get_files_for_channel(
    root: &String,
    channel: &ProjectItem,
    dir_listings: &Vec<Vec<String>>,
) -> (v: Vec<String>)
    ensures
        strs_view(&v) =~= dedup_spec(
            dir_listings@.map_values(|l: Vec<String>| strs_view(&l)).flatten() + (match channel@.files {
                Some(fs) => fs.map_values(|f: FileV| join_path_spec(root@, f.path)),
                None => Seq::<Seq<char>>::empty(),
            }),
        ),
{
    let ghost listed = dir_listings@.map_values(|l: Vec<String>| strs_view(&l)).flatten();
    let ghost explicit: Seq<Seq<char>> = match channel@.files {
        Some(fs) => fs.map_values(|f: FileV| join_path_spec(root@, f.path)),
        None => Seq::<Seq<char>>::empty(),
    };
    let mut v: Vec<String> = Vec::new();
    let mut i: usize = 0;
    proof {
        assert(listed.take(0) =~= Seq::<Seq<char>>::empty());
        assert(strs_view(&v) =~= dedup_spec(Seq::<Seq<char>>::empty()));
    }
    while i < dir_listings.len()
        invariant
            i <= dir_listings.len(),
            listed == dir_listings@.map_values(|l: Vec<String>| strs_view(&l)).flatten(),
            strs_view(&v) =~= dedup_spec(
                dir_listings@.map_values(|l: Vec<String>| strs_view(&l)).take(i as int).flatten(),
            ),
        decreases dir_listings.len() - i,
    {
        let ghost mapped = dir_listings@.map_values(|l: Vec<String>| strs_view(&l));
        let ghost outer0 = mapped.take(i as int).flatten();
        let listing = &dir_listings[i];
        let mut k: usize = 0;
        while k < listing.len()
            invariant
                k <= listing.len(),
                mapped == dir_listings@.map_values(|l: Vec<String>| strs_view(&l)),
                outer0 == mapped.take(i as int).flatten(),
                i < dir_listings@.len(),
                listing == &dir_listings[i as int],
                strs_view(&v) =~= dedup_spec(outer0 + strs_view(listing).take(k as int)),
            decreases listing.len() - k,
        {
            let ghost seen = outer0 + strs_view(listing).take(k as int);
            if !strs_contain(&v, &listing[k]) {
                proof {
                    lemma_dedup_contains(seen, strs_view(listing)[k as int]);
                }
                v.push(listing[k].clone());
                proof {
                    assert(seen.push(strs_view(listing)[k as int]).drop_last() =~= seen);
                    assert(strs_view(&v) =~= dedup_spec(seen).push(strs_view(listing)[k as int]));
                    assert(strs_view(&v) =~= dedup_spec(
                        seen.push(strs_view(listing)[k as int]),
                    ));
                    assert(seen.push(strs_view(listing)[k as int]) =~= outer0 + strs_view(
                        listing,
                    ).take(k as int + 1));
                }
            } else {
                proof {
                    lemma_dedup_contains(seen, strs_view(listing)[k as int]);
                    assert(seen.push(strs_view(listing)[k as int]).drop_last() =~= seen);
                    assert(dedup_spec(seen) =~= dedup_spec(seen.push(strs_view(listing)[k as int])));
                    assert(seen.push(strs_view(listing)[k as int]) =~= outer0 + strs_view(
                        listing,
                    ).take(k as int + 1));
                }
            }
            k = k + 1;
        }
        proof {
            assert(strs_view(listing).take(listing@.len() as int) =~= strs_view(listing));
            assert(mapped.take(i as int + 1).drop_last() =~= mapped.take(i as int));
            assert(mapped.take(i as int + 1).last() == mapped[i as int]);
            vstd::seq_lib::lemma_flatten_concat(mapped.take(i as int), seq![mapped[i as int]]);
            assert(mapped.take(i as int).push(mapped[i as int]) =~= mapped.take(i as int)
                + seq![mapped[i as int]]);
            mapped.take(i as int).lemma_flatten_push(mapped[i as int]);
            assert(mapped.take(i as int + 1) =~= mapped.take(i as int).push(mapped[i as int]));
            assert(outer0 + strs_view(listing) =~= mapped.take(i as int + 1).flatten());
        }
        i = i + 1;
    }
    proof {
        let ghost mapped = dir_listings@.map_values(|l: Vec<String>| strs_view(&l));
        assert(mapped.take(dir_listings@.len() as int) =~= mapped);
    }
    match &channel.files {
        Some(fs) => {
            let mut k: usize = 0;
            let ghost fsv: Seq<FileV> = channel@.files->Some_0;
            while k < fs.len()
                invariant
                    k <= fs.len(),
                    fsv == channel@.files->Some_0,
                    fsv == fs@.map_values(|f: File| f@),
                    listed == dir_listings@.map_values(|l: Vec<String>| strs_view(&l)).flatten(),
                    strs_view(&v) =~= dedup_spec(
                        listed + fsv.map_values(|f: FileV| join_path_spec(root@, f.path)).take(
                            k as int,
                        ),
                    ),
                decreases fs.len() - k,
            {
                let ghost exv = fsv.map_values(|f: FileV| join_path_spec(root@, f.path));
                let ghost seen = listed + exv.take(k as int);
                let joined = join_path(root.as_str(), fs[k].path.as_str());
                assert(joined@ == exv[k as int]);
                if !strs_contain(&v, &joined) {
                    proof {
                        lemma_dedup_contains(seen, exv[k as int]);
                    }
                    v.push(joined);
                    proof {
                        assert(seen.push(exv[k as int]).drop_last() =~= seen);
                        assert(strs_view(&v) =~= dedup_spec(seen.push(exv[k as int])));
                        assert(seen.push(exv[k as int]) =~= listed + exv.take(k as int + 1));
                    }
                } else {
                    proof {
                        lemma_dedup_contains(seen, exv[k as int]);
                        assert(seen.push(exv[k as int]).drop_last() =~= seen);
                        assert(dedup_spec(seen) =~= dedup_spec(seen.push(exv[k as int])));
                        assert(seen.push(exv[k as int]) =~= listed + exv.take(k as int + 1));
                    }
                }
                k = k + 1;
            }
            proof {
                let ghost exv = fsv.map_values(|f: FileV| join_path_spec(root@, f.path));
                assert(exv.take(fs@.len() as int) =~= exv);
            }
        },
        None => {
            proof {
                assert(listed + Seq::<Seq<char>>::empty() =~= listed);
            }
        },
    }
    v
}

/// Membership in a deduplicated list matches membership in its source.
proof fn lemma_dedup_contains(s: Seq<Seq<char>>, x: Seq<char>)
    ensures
        dedup_spec(s).contains(x) <==> s.contains(x),
    decreases s.len(),
{
    if s.len() == 0 {
    } else {
        lemma_dedup_contains(s.drop_last(), x);
        let front = dedup_spec(s.drop_last());
        assert(s.contains(x) <==> s.drop_last().contains(x) || s.last() == x) by {
            if s.contains(x) {
                let i = choose|i: int| 0 <= i < s.len() && s[i] == x;
                if i < s.len() - 1 {
                    assert(s.drop_last()[i] == x);
                }
            }
            if s.drop_last().contains(x) {
                let i = choose|i: int| 0 <= i < s.drop_last().len() && s.drop_last()[i] == x;
                assert(s[i] == x);
            }
            assert(s[s.len() - 1] == s.last());
        }
        if front.contains(s.last()) {
        } else {
            assert(front.push(s.last()).contains(x) <==> front.contains(x) || s.last() == x) by {
                if front.push(s.last()).contains(x) {
                    let i = choose|i: int|
                        0 <= i < front.push(s.last()).len() && front.push(s.last())[i] == x;
                    if i < front.len() {
                        assert(front[i] == x);
                    }
                }
                if front.contains(x) {
                    let i = choose|i: int| 0 <= i < front.len() && front[i] == x;
                    assert(front.push(s.last())[i] == x);
                }
                assert(front.push(s.last())[front.len() as int] == s.last());
            }
        }
    }
}

/// The file lies under the directory: it equals the directory path or has
/// it as a path-separated prefix.
pub open spec fn path_under(file: Seq<char>, dir: Seq<char>) -> bool {
    file == dir || crate::mask::starts_with(file, dir + "/"@)
}

/// Whether the file path lies under the directory path.
pub fn path_under_exec(file: &String, dir: &String) -> (r: bool)
    ensures
        r == path_under(file@, dir@),
{
    if file.eq(dir) {
        return true;
    }
    let prefix = join_path(dir.as_str(), "");
    assert(prefix@ =~= dir@ + "/"@) by {
        reveal_strlit("");
        assert(dir@ + "/"@ + ""@ =~= dir@ + "/"@);
    }
    let r = crate::mask::matches_at(file.as_str(), 0, prefix.as_str());
    assert(file@.skip(0) =~= file@);
    r
}

/// The first explicitly listed file whose joined path equals the given file.
pub open spec fn find_file_match(fs: Seq<FileV>, root: Seq<char>, file: Seq<char>) -> Option<
    FileV,
>
    decreases fs.len(),
{
    if fs.len() == 0 {
        None
    } else if join_path_spec(root, fs[0].path) == file {
        Some(fs[0])
    } else {
        find_file_match(fs.drop_first(), root, file)
    }
}

/// The first directory the given file lies under.
pub open spec fn find_dir_match(ds: Seq<DirectoryV>, root: Seq<char>, file: Seq<char>) -> Option<
    DirectoryV,
>
    decreases ds.len(),
{
    if ds.len() == 0 {
        None
    } else if path_under(file, join_path_spec(root, ds[0].path)) {
        Some(ds[0])
    } else {
        find_dir_match(ds.drop_first(), root, file)
    }
}

/// The tuple a file resolves to under the given channel: the first item of
/// that name whose explicit files hold the path, or failing that whose
/// directories cover it; an item carrying both lists matches through either.
pub open spec fn assoc_spec(
    items: Seq<ProjectItemV>,
    root: Seq<char>,
    file: Seq<char>,
    channel: Seq<char>,
) -> Option<(Option<DirectoryV>, Option<FileV>, ProjectItemV)>
    decreases items.len(),
{
    if items.len() == 0 {
        None
    } else {
        let it = items[0];
        let rest = assoc_spec(items.drop_first(), root, file, channel);
        if it.channel_name == channel {
            let file_hit = match it.files {
                Some(fs) => find_file_match(fs, root, file),
                None => None,
            };
            match file_hit {
                Some(f) => Some((None, Some(f), it)),
                None => {
                    let dir_hit = match it.directories {
                        Some(ds) => find_dir_match(ds, root, file),
                        None => None,
                    };
                    match dir_hit {
                        Some(d) => Some((Some(d), None, it)),
                        None => rest,
                    }
                },
            }
        } else {
            rest
        }
    }
}

/// Finds the explicit file of the named channel that equals the given
/// absolute path or, failing that, the directory that covers it, with the
/// channel itself.
pub fn get_associated_item(
    project: &Project,
    root_abs: &String,
    file: &String,
    channel: &String,
) -> (r: Option<(Option<Directory>, Option<File>, ProjectItem)>)
    ensures
        crate::transform::tup_view(&r) == assoc_spec(project@.items, root_abs@, file@, channel@),
{
    let mut i: usize = 0;
    proof {
        assert(project@.items.skip(0) =~= project@.items);
    }
    while i < project.items.len()
        invariant
            i <= project.items.len(),
            assoc_spec(project@.items, root_abs@, file@, channel@) == assoc_spec(
                project@.items.skip(i as int),
                root_abs@,
                file@,
                channel@,
            ),
        decreases project.items.len() - i,
    {
        let ghost rest = project@.items.skip(i as int);
        assert(rest[0] == project@.items[i as int]);
        assert(rest.drop_first() =~= project@.items.skip(i as int + 1));
        let item = &project.items[i];
        if item.channel_name.eq(channel) {
            match &item.files {
                Some(fs) => {
                    let ghost fsv = item@.files->Some_0;
                    let mut k: usize = 0;
                    proof {
                        assert(fsv.skip(0) =~= fsv);
                    }
                    while k < fs.len()
                        invariant
                            k <= fs.len(),
                            i < project.items@.len(),
                            item == &project.items[i as int],
                            item@.channel_name == channel@,
                            item@.files is Some,
                            fsv == item@.files->Some_0,
                            fsv == fs@.map_values(|f: File| f@),
                            assoc_spec(project@.items, root_abs@, file@, channel@) == assoc_spec(
                                project@.items.skip(i as int),
                                root_abs@,
                                file@,
                                channel@,
                            ),
                            find_file_match(fsv, root_abs@, file@) == find_file_match(
                                fsv.skip(k as int),
                                root_abs@,
                                file@,
                            ),
                        decreases fs.len() - k,
                    {
                        let ghost frest = fsv.skip(k as int);
                        assert(frest[0] == fs@[k as int]@);
                        assert(frest.drop_first() =~= fsv.skip(k as int + 1));
                        let joined = join_path(root_abs.as_str(), fs[k].path.as_str());
                        if joined.eq(file) {
                            proof {
                                assert(join_path_spec(root_abs@, frest[0].path) == file@);
                                assert(find_file_match(frest, root_abs@, file@) == Some(frest[0]));
                                let seen = project@.items.skip(i as int);
                                assert(seen[0] == item@);
                                assert(assoc_spec(seen, root_abs@, file@, channel@) == Some(
                                    (Option::<DirectoryV>::None, Some(frest[0]), item@),
                                ));
                            }
                            return Some((None, Some(clone_file(&fs[k])), clone_item(item)));
                        }
                        k = k + 1;
                    }
                    assert(fsv.skip(fs@.len() as int).len() == 0);
                    assert(find_file_match(fsv, root_abs@, file@) is None);
                },
                None => {},
            }
            match &item.directories {
                Some(ds) => {
                    let ghost dsv = item@.directories->Some_0;
                    let mut k: usize = 0;
                    proof {
                        assert(dsv.skip(0) =~= dsv);
                    }
                    while k < ds.len()
                        invariant
                            k <= ds.len(),
                            i < project.items@.len(),
                            item == &project.items[i as int],
                            item@.channel_name == channel@,
                            item@.directories is Some,
                            (match item@.files {
                                Some(fs2) => find_file_match(fs2, root_abs@, file@) is None,
                                None => true,
                            }),
                            dsv == item@.directories->Some_0,
                            dsv == ds@.map_values(|d: Directory| d@),
                            assoc_spec(project@.items, root_abs@, file@, channel@)
                                == assoc_spec(
                                project@.items.skip(i as int),
                                root_abs@,
                                file@,
                                channel@,
                            ),
                            find_dir_match(dsv, root_abs@, file@) == find_dir_match(
                                dsv.skip(k as int),
                                root_abs@,
                                file@,
                            ),
                        decreases ds.len() - k,
                    {
                        let ghost drest = dsv.skip(k as int);
                        assert(drest[0] == ds@[k as int]@);
                        assert(drest.drop_first() =~= dsv.skip(k as int + 1));
                        let joined = join_path(root_abs.as_str(), ds[k].path.as_str());
                        if path_under_exec(file, &joined) {
                            proof {
                                assert(path_under(
                                    file@,
                                    join_path_spec(root_abs@, drest[0].path),
                                ));
                                assert(find_dir_match(drest, root_abs@, file@) == Some(
                                    drest[0],
                                ));
                                let seen = project@.items.skip(i as int);
                                assert(seen[0] == item@);
                                assert(assoc_spec(seen, root_abs@, file@, channel@) == Some(
                                    (Some(drest[0]), Option::<FileV>::None, item@),
                                ));
                            }
                            return Some(
                                (Some(clone_directory(&ds[k])), None, clone_item(item)),
                            );
                        }
                        k = k + 1;
                    }
                    assert(dsv.skip(ds@.len() as int).len() == 0);
                    assert(find_dir_match(dsv, root_abs@, file@) is None);
                },
                None => {},
            }
        }
        i = i + 1;
    }
    assert(project@.items.skip(project.items.len() as int).len() == 0);
    None
}

/// One line per channel: its name, a separating dash, and its kind's label.
pub open spec fn listing_spec(items: Seq<ProjectItemV>) -> Seq<char>
    decreases items.len(),
{
    if items.len() == 0 {
        Seq::empty()
    } else {
        items[0].channel_name + " - "@ + items[0].item_type.label_spec() + "\n"@ + listing_spec(
            items.drop_first(),
        )
    }
}

/// The channel listing served at the root route, before compression.
pub fn channel_listing(project: &Project) -> (r: String)
    ensures
        r@ == listing_spec(project@.items),
{
    let mut out = String::new();
    let mut i: usize = 0;
    proof {
        assert(project@.items.skip(0) =~= project@.items);
        assert(out@ + listing_spec(project@.items) =~= listing_spec(project@.items));
    }
    while i < project.items.len()
        invariant
            i <= project.items.len(),
            listing_spec(project@.items) == out@ + listing_spec(project@.items.skip(i as int)),
        decreases project.items.len() - i,
    {
        let ghost rest = project@.items.skip(i as int);
        let ghost out0 = out@;
        assert(rest[0] == project@.items[i as int]);
        out.append(project.items[i].channel_name.as_str());
        out.append(" - ");
        let label = project.items[i].item_type.label();
        out.append(label.as_str());
        out.append("\n");
        proof {
            assert(rest.drop_first() =~= project@.items.skip(i as int + 1));
            assert(out@ =~= out0 + (rest[0].channel_name + " - "@ + rest[0].item_type.label_spec()
                + "\n"@));
            assert(out0 + (rest[0].channel_name + " - "@ + rest[0].item_type.label_spec() + "\n"@)
                + listing_spec(project@.items.skip(i as int + 1)) =~= out0 + listing_spec(rest));
        }
        i = i + 1;
    }
    proof {
        assert(project@.items.skip(project.items.len() as int).len() == 0);
        assert(out@ + Seq::<char>::empty() =~= out@);
    }
    out
}

/// An ASCII whitespace character.
pub open spec fn is_space_char(c: char) -> bool {
    c == ' ' || c == '\t' || c == '\n' || c == '\r'
}

/// A channel name is acceptable: non-empty and free of whitespace.
pub open spec fn valid_channel_name(n: Seq<char>) -> bool {
    n.len() > 0 && (forall|i: int| 0 <= i < n.len() ==> !is_space_char(#[trigger] n[i]))
}

/// The project meets its structural invariants: channel names are
/// acceptable and unique.
pub open spec fn project_valid(p: ProjectV) -> bool {
    &&& forall|i: int|
        0 <= i < p.items.len() ==> valid_channel_name(#[trigger] p.items[i].channel_name)
    &&& forall|i: int, j: int|
        0 <= i < j < p.items.len() ==> p.items[i].channel_name != p.items[j].channel_name
}

/// Why a project descriptor was rejected before the server starts.
#[derive(Clone, Copy, PartialEq, Eq, Structural, Debug)]
pub enum ConfigError {
    EmptyChannelName,
    WhitespaceChannelName,
    DuplicateChannelName,
}

/// Checks a channel name for whitespace.
fn name_has_space(n: &String) -> (r: bool)
    ensures
        r == exists|i: int| 0 <= i < n@.len() && is_space_char(#[trigger] n@[i]),
{
    let len = n.as_str().unicode_len();
    let mut i: usize = 0;
    while i < len
        invariant
            i <= len,
            len == n@.len(),
            forall|j: int| 0 <= j < i ==> !is_space_char(#[trigger] n@[j]),
        decreases len - i,
    {
        let c = n.as_str().get_char(i);
        if c == ' ' || c == '\t' || c == '\n' || c == '\r' {
            assert(is_space_char(n@[i as int]));
            return true;
        }
        i = i + 1;
    }
    false
}

/// Validates the structural invariants of a loaded project: every channel
/// name is non-empty, free of whitespace, and unique. Returns the first
/// violation found.
pub fn validate_project(project: &Project) -> (r: Result<(), ConfigError>)
    ensures
        r is Ok <==> project_valid(project@),
{
    let mut i: usize = 0;
    while i < project.items.len()
        invariant
            i <= project.items.len(),
            forall|k: int|
                0 <= k < i ==> valid_channel_name(
                    #[trigger] project@.items[k].channel_name,
                ),
            forall|k: int, l: int|
                0 <= k < l < i ==> project@.items[k].channel_name
                    != project@.items[l].channel_name,
        decreases project.items.len() - i,
    {
        let name = &project.items[i].channel_name;
        if name.as_str().unicode_len() == 0 {
            assert(!valid_channel_name(project@.items[i as int].channel_name));
            return Err(ConfigError::EmptyChannelName);
        }
        if name_has_space(name) {
            assert(!valid_channel_name(project@.items[i as int].channel_name));
            return Err(ConfigError::WhitespaceChannelName);
        }
        let mut k: usize = 0;
        while k < i
            invariant
                k <= i,
                i < project.items@.len(),
                name@ == project@.items[i as int].channel_name,
                forall|l: int|
                    0 <= l < k ==> project@.items[l].channel_name
                        != project@.items[i as int].channel_name,
            decreases i - k,
        {
            if project.items[k].channel_name.eq(name) {
                proof {
                    assert(project@.items[k as int].channel_name == project@.items[
                        i as int
                    ].channel_name);
                    assert(!project_valid(project@));
                }
                return Err(ConfigError::DuplicateChannelName);
            }
            k = k + 1;
        }
        i = i + 1;
    }
    Ok(())
}

} // verus!
