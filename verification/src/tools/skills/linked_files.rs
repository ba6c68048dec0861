//! The files that belong to a skill.

use vstd::prelude::*;
use vstd::string::*;

use crate::json::{text_array, Json, JsonView};
use crate::order::{sort_texts, sorted_texts};
use crate::path::{extension, extension_text};
use crate::text::{holds_text, push_text, same, starts_with, starts_with_text, views};

verus! {

/// Names that are passed over.
pub open spec fn is_hidden(name: Seq<char>) -> bool {
    starts_with(name, "."@)
}

pub fn hidden(name: &str) -> (r: bool)
    ensures
        r == is_hidden(name@),
{
    starts_with_text(name, ".")
}

/// The extensions that files of a bucket may have; all if there is no list.
pub open spec fn bucket_extensions(bucket: Seq<char>) -> Option<Seq<Seq<char>>> {
    if bucket == "templates"@ {
        Some(
            Seq::empty().push("md"@).push("py"@).push("yaml"@).push("yml"@).push("json"@).push(
                "tex"@,
            ).push("sh"@),
        )
    } else if bucket == "scripts"@ {
        Some(
            Seq::empty().push("py"@).push("sh"@).push("bash"@).push("js"@).push("ts"@).push("rb"@),
        )
    } else {
        None
    }
}

pub fn bucket_specific_extensions(bucket: &str) -> (r: Option<Vec<String>>)
    ensures
        match r {
            Some(list) => bucket_extensions(bucket@) == Some(views(list@)),
            None => bucket_extensions(bucket@) is None,
        },
{
    let mut list: Vec<String> = Vec::new();
    assert(views(list@) =~= Seq::<Seq<char>>::empty());
    if same(bucket, "templates") {
        push_text(&mut list, "md");
        push_text(&mut list, "py");
        push_text(&mut list, "yaml");
        push_text(&mut list, "yml");
        push_text(&mut list, "json");
        push_text(&mut list, "tex");
        push_text(&mut list, "sh");
        Some(list)
    } else if same(bucket, "scripts") {
        push_text(&mut list, "py");
        push_text(&mut list, "sh");
        push_text(&mut list, "bash");
        push_text(&mut list, "js");
        push_text(&mut list, "ts");
        push_text(&mut list, "rb");
        Some(list)
    } else {
        None
    }
}

/// Whether a bucket lists a file.
pub open spec fn bucket_takes(bucket: Seq<char>, path: Seq<char>) -> bool {
    match bucket_extensions(bucket) {
        Some(list) => list.contains(
            match extension(path) {
                Some(ext) => ext,
                None => Seq::empty(),
            },
        ),
        None => true,
    }
}

/// Those of the first `n` files that the bucket lists.
pub open spec fn taken(bucket: Seq<char>, files: Seq<Seq<char>>, n: int) -> Seq<Seq<char>>
    decreases n,
{
    if n <= 0 {
        Seq::empty()
    } else if bucket_takes(bucket, files[n - 1]) {
        taken(bucket, files, n - 1).push(files[n - 1])
    } else {
        taken(bucket, files, n - 1)
    }
}

/// The files of a bucket as they are listed: sorted.
pub open spec fn bucket_files(bucket: Seq<char>, files: Seq<Seq<char>>) -> Seq<Seq<char>> {
    let kept = taken(bucket, files, files.len() as int);
    sorted_texts(kept, kept.len() as int)
}

/// The files of a bucket as they are listed. `files` are all that are not
/// hidden, relative to the skill.
pub fn collect_bucket_files(bucket: &str, files: &Vec<String>) -> (r: Vec<String>)
    ensures
        views(r@) == bucket_files(bucket@, views(files@)),
{
    let allowed = bucket_specific_extensions(bucket);
    let ghost all = views(files@);
    let mut kept: Vec<String> = Vec::new();
    let mut i: usize = 0;
    assert(views(kept@) =~= Seq::<Seq<char>>::empty());
    while i < files.len()
        invariant
            i <= files@.len(),
            all == views(files@),
            match allowed {
                Some(list) => bucket_extensions(bucket@) == Some(views(list@)),
                None => bucket_extensions(bucket@) is None,
            },
            views(kept@) == taken(bucket@, all, i as int),
        decreases files.len() - i,
    {
        assert(all[i as int] == files@[i as int]@);
        let ok = match &allowed {
            Some(list) => {
                let ext = match extension_text(files[i].as_str()) {
                    Some(e) => e,
                    None => String::new(),
                };
                assert(extension(files@[i as int]@) is None ==> ext@ =~= Seq::<char>::empty());
                holds_text(list, ext.as_str())
            },
            None => true,
        };
        if ok {
            push_text(&mut kept, files[i].as_str());
        }
        i += 1;
    }
    let r = sort_texts(&kept);
    assert(kept@.len() == views(kept@).len());
    r
}

/// What lies in a skill's directory: the files below each bucket, relative
/// to the skill, and the names directly in it.
pub struct SkillFiles {
    pub references: Vec<String>,
    pub templates: Vec<String>,
    pub assets: Vec<String>,
    pub scripts: Vec<String>,
    pub names: Vec<String>,
}

/// Whether a name in the skill's directory is listed under `other`.
pub open spec fn is_other(name: Seq<char>) -> bool {
    !is_hidden(name) && name != "SKILL.md"@ && name != "references"@ && name != "templates"@
        && name != "assets"@ && name != "scripts"@
}

/// The other ones among the first `n` names.
pub open spec fn other_names(names: Seq<Seq<char>>, n: int) -> Seq<Seq<char>>
    decreases n,
{
    if n <= 0 {
        Seq::empty()
    } else if is_other(names[n - 1]) {
        other_names(names, n - 1).push(names[n - 1])
    } else {
        other_names(names, n - 1)
    }
}

/// The object with one more list, unless that is empty.
pub open spec fn with_list(object: JsonView, key: Seq<char>, items: Seq<Seq<char>>) -> JsonView {
    if items.len() == 0 {
        object
    } else {
        object.with(key, text_array(items))
    }
}

/// What is shown of a skill's files.
pub open spec fn linked_files(files: SkillFiles) -> JsonView {
    with_list(
        with_list(
            with_list(
                with_list(
                    with_list(
                        JsonView::object(),
                        "references"@,
                        bucket_files("references"@, views(files.references@)),
                    ),
                    "templates"@,
                    bucket_files("templates"@, views(files.templates@)),
                ),
                "assets"@,
                bucket_files("assets"@, views(files.assets@)),
            ),
            "scripts"@,
            bucket_files("scripts"@, views(files.scripts@)),
        ),
        "other"@,
        other_names(views(files.names@), files.names@.len() as int),
    )
}

fn add_list(object: Json, key: &str, items: &Vec<String>) -> (r: Json)
    requires
        object@ is Object,
    ensures
        r@ == with_list(object@, key@, views(items@)),
        r@ is Object,
{
    assert(views(items@).len() == items@.len());
    if items.len() == 0 {
        object
    } else {
        object.with(key, Json::texts(items))
    }
}

fn collect_other(names: &Vec<String>) -> (r: Vec<String>)
    ensures
        views(r@) == other_names(views(names@), names@.len() as int),
{
    let ghost all = views(names@);
    let mut out: Vec<String> = Vec::new();
    let mut i: usize = 0;
    assert(views(out@) =~= Seq::<Seq<char>>::empty());
    while i < names.len()
        invariant
            i <= names@.len(),
            all == views(names@),
            views(out@) == other_names(all, i as int),
        decreases names.len() - i,
    {
        let name = names[i].as_str();
        assert(all[i as int] == name@);
        if !hidden(name) && !same(name, "SKILL.md") && !same(name, "references") && !same(
            name,
            "templates",
        ) && !same(name, "assets") && !same(name, "scripts") {
            push_text(&mut out, name);
        }
        i += 1;
    }
    out
}

/// What is shown of a skill's files.
pub fn discover_linked_files(files: &SkillFiles) -> (r: Json)
    ensures
        r@ == linked_files(*files),
{
    let mut out = Json::object();
    out = add_list(out, "references", &collect_bucket_files("references", &files.references));
    out = add_list(out, "templates", &collect_bucket_files("templates", &files.templates));
    out = add_list(out, "assets", &collect_bucket_files("assets", &files.assets));
    out = add_list(out, "scripts", &collect_bucket_files("scripts", &files.scripts));
    add_list(out, "other", &collect_other(&files.names))
}

// ---------------------------------------------------------------------
// Laws
// ---------------------------------------------------------------------

proof fn lemma_taken(bucket: Seq<char>, files: Seq<Seq<char>>, n: int, f: Seq<char>)
    requires
        0 <= n <= files.len(),
    ensures
        taken(bucket, files, n).to_multiset().count(f) == if bucket_takes(bucket, f) {
            files.take(n).to_multiset().count(f)
        } else {
            0
        },
    decreases n,
{
    broadcast use vstd::multiset::group_multiset_axioms;

    let now = taken(bucket, files, n);
    if n > 0 {
        lemma_taken(bucket, files, n - 1, f);
        let g = files[n - 1];
        let before = taken(bucket, files, n - 1);
        assert(files.take(n) =~= files.take(n - 1).push(g));
        files.take(n - 1).to_multiset_ensures();
        before.to_multiset_ensures();
    } else {
        now.to_multiset_ensures();
        files.take(0).to_multiset_ensures();
        assert(!now.contains(f));
        assert(!files.take(0).contains(f));
    }
}

/// A bucket lists just the files that it takes, each as often as it was
/// found, in order.
pub proof fn law_bucket_lists_its_files(bucket: Seq<char>, files: Seq<Seq<char>>, f: Seq<char>)
    ensures
        crate::order::sorted(bucket_files(bucket, files)),
        bucket_files(bucket, files).to_multiset().count(f) == if bucket_takes(bucket, f) {
            files.to_multiset().count(f)
        } else {
            0
        },
{
    let kept = taken(bucket, files, files.len() as int);
    crate::order::law_sorted_texts(kept, kept.len() as int);
    assert(kept.take(kept.len() as int) =~= kept);
    lemma_taken(bucket, files, files.len() as int, f);
    assert(files.take(files.len() as int) =~= files);
}

/// References and assets are listed whatever their extension; a template or
/// a script needs one of its kind.
pub proof fn law_buckets_take_their_kind(d: Seq<char>, name: Seq<char>, path: Seq<char>)
    requires
        d.len() == 0 || d.last() == '/',
        crate::path::is_plain_name(name),
    ensures
        bucket_takes("references"@, path),
        bucket_takes("assets"@, path),
        crate::path::name_extension(name) == Some("py"@) ==> bucket_takes("scripts"@, d + name)
            && bucket_takes("templates"@, d + name),
        crate::path::name_extension(name) == Some("sh"@) ==> bucket_takes("scripts"@, d + name)
            && bucket_takes("templates"@, d + name),
        crate::path::name_extension(name) == Some("md"@) ==> bucket_takes("templates"@, d + name)
            && !bucket_takes("scripts"@, d + name),
        crate::path::name_extension(name) is None ==> !bucket_takes("scripts"@, d + name)
            && !bucket_takes("templates"@, d + name),
{
    reveal_strlit("references");
    reveal_strlit("assets");
    reveal_strlit("templates");
    reveal_strlit("scripts");
    reveal_strlit("md");
    reveal_strlit("py");
    reveal_strlit("yaml");
    reveal_strlit("yml");
    reveal_strlit("json");
    reveal_strlit("tex");
    reveal_strlit("sh");
    reveal_strlit("bash");
    reveal_strlit("js");
    reveal_strlit("ts");
    reveal_strlit("rb");
    assert("references"@.len() == 10 && "assets"@.len() == 6 && "templates"@.len() == 9
        && "scripts"@.len() == 7);
    let t = bucket_extensions("templates"@)->0;
    let s = bucket_extensions("scripts"@)->0;
    assert(t[0] == "md"@ && t[1] == "py"@ && t[6] == "sh"@);
    assert(s[0] == "py"@ && s[1] == "sh"@);
    assert(t.len() == 7 && s.len() == 6);
    crate::path::law_last_component(d, name, name);
    assert("md"@[0] == 'm' && "py"@[0] == 'p' && "sh"@[0] == 's' && "js"@[0] == 'j' && "ts"@[0]
        == 't' && "rb"@[0] == 'r' && "bash"@.len() == 4);
    if s.contains("md"@) {
        let k = choose|k: int| 0 <= k < s.len() && s[k] == "md"@;
        assert(s[2] == "bash"@ && s[3] == "js"@ && s[4] == "ts"@ && s[5] == "rb"@);
        assert("md"@.len() == 2);
    }
    let none = Seq::<char>::empty();
    if s.contains(none) {
        let k = choose|k: int| 0 <= k < s.len() && s[k] == none;
        assert(s[2] == "bash"@ && s[3] == "js"@ && s[4] == "ts"@ && s[5] == "rb"@);
        assert(s[k].len() > 0);
    }
    if t.contains(none) {
        let k = choose|k: int| 0 <= k < t.len() && t[k] == none;
        assert(t[2] == "yaml"@ && t[3] == "yml"@ && t[4] == "json"@ && t[5] == "tex"@);
        assert(t[k].len() > 0);
    }
}

proof fn lemma_other_names(names: Seq<Seq<char>>, n: int, name: Seq<char>)
    requires
        0 <= n <= names.len(),
    ensures
        other_names(names, n).contains(name) <==> names.take(n).contains(name) && is_other(name),
    decreases n,
{
    let now = other_names(names, n);
    if n > 0 {
        lemma_other_names(names, n - 1, name);
        let before = other_names(names, n - 1);
        let a = names.take(n - 1);
        let b = names.take(n);
        assert(b =~= a.push(names[n - 1]));
        if a.contains(name) {
            let w = choose|w: int| 0 <= w < a.len() && a[w] == name;
            assert(b[w] == name);
        }
        assert(b[n - 1] == names[n - 1]);
        if b.contains(name) && !a.contains(name) {
            let w = choose|w: int| 0 <= w < b.len() && b[w] == name;
            assert(w == n - 1) by {
                if w < n - 1 {
                    assert(a[w] == name);
                }
            }
        }
        if before.contains(name) {
            let w = choose|w: int| 0 <= w < before.len() && before[w] == name;
            assert(now[w] == name);
        }
        if is_other(names[n - 1]) {
            assert(now[now.len() - 1] == names[n - 1]);
            if now.contains(name) && !before.contains(name) {
                let w = choose|w: int| 0 <= w < now.len() && now[w] == name;
                assert(w == before.len()) by {
                    if w < before.len() {
                        assert(before[w] == name);
                    }
                }
            }
        }
    }
}

/// Every bucket that lists a file is shown with all that it lists, and so
/// is what else lies in the skill, but for hidden names, the skill's own
/// file and the buckets.
pub proof fn law_all_linked_files_are_shown(files: SkillFiles, name: Seq<char>)
    ensures
        ({
            let shown = linked_files(files);
            let references = bucket_files("references"@, views(files.references@));
            let templates = bucket_files("templates"@, views(files.templates@));
            let assets = bucket_files("assets"@, views(files.assets@));
            let scripts = bucket_files("scripts"@, views(files.scripts@));
            let other = other_names(views(files.names@), files.names@.len() as int);
            &&& references.len() > 0 ==> shown.get("references"@) == Some(text_array(references))
            &&& references.len() == 0 ==> shown.get("references"@) is None
            &&& templates.len() > 0 ==> shown.get("templates"@) == Some(text_array(templates))
            &&& templates.len() == 0 ==> shown.get("templates"@) is None
            &&& assets.len() > 0 ==> shown.get("assets"@) == Some(text_array(assets))
            &&& assets.len() == 0 ==> shown.get("assets"@) is None
            &&& scripts.len() > 0 ==> shown.get("scripts"@) == Some(text_array(scripts))
            &&& scripts.len() == 0 ==> shown.get("scripts"@) is None
            &&& other.len() > 0 ==> shown.get("other"@) == Some(text_array(other))
            &&& other.len() == 0 ==> shown.get("other"@) is None
            &&& other.contains(name) <==> views(files.names@).contains(name) && !starts_with(
                name,
                "."@,
            ) && name != "SKILL.md"@ && name != "references"@ && name != "templates"@ && name
                != "assets"@ && name != "scripts"@
        }),
{
    reveal_strlit("references");
    reveal_strlit("templates");
    reveal_strlit("assets");
    reveal_strlit("scripts");
    reveal_strlit("other");
    assert("references"@.len() == 10 && "templates"@.len() == 9 && "assets"@.len() == 6
        && "scripts"@.len() == 7 && "other"@.len() == 5);
    let all = views(files.names@);
    lemma_other_names(all, all.len() as int, name);
    assert(all.take(all.len() as int) =~= all);
    assert(all.len() == files.names@.len());
}

} // verus!
