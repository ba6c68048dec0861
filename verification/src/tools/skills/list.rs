//! `SkillListTool`: the skills that are there.

use vstd::prelude::*;
use vstd::string::*;

use crate::json::{model, models, text_array, Json, JsonView};
use crate::order::{precedes, precedes_text, sort_distinct, sorted_distinct};
use crate::text::{lower, lower_text, same, views};
use crate::tools::skills::skill::{
    skill_error, skill_error_reply, skill_views, text_or_null, text_or_null_json, Skill,
    SkillView,
};
use crate::tools::support::schema::{
    number, object_schema, object_schema_json, typed, typed_param,
};

verus! {

pub const SKILLS_LIST_DESCRIPTION: &'static str = "List available skills (name + description). Use skill_view(name) to load full content.";

pub struct SkillListTool {
    pub skills_dir: String,
}

/// A skill's category, or nothing.
pub open spec fn category_key(s: SkillView) -> Seq<char> {
    match s.category {
        Some(c) => c,
        None => Seq::empty(),
    }
}

/// Whether `a` is listed before `b`: by category, then by name.
pub open spec fn listed_before(a: SkillView, b: SkillView) -> bool {
    precedes(category_key(a), category_key(b)) || (category_key(a) == category_key(b) && precedes(
        a.name,
        b.name,
    ))
}

/// Whether a skill is in the category that is asked for, whatever the case
/// of the letters.
pub open spec fn in_category(s: SkillView, wanted: Option<Seq<char>>) -> bool {
    match wanted {
        Some(w) => match s.category {
            Some(c) => lower(c) == lower(w),
            None => false,
        },
        None => true,
    }
}

/// How many entries at the start of `s`, from `i` on, are not listed after
/// `x`.
pub open spec fn list_place(s: Seq<SkillView>, x: SkillView, i: int) -> int
    decreases s.len() - i,
{
    if i < s.len() && !listed_before(x, s[i]) {
        list_place(s, x, i + 1)
    } else {
        i
    }
}

/// Those of the first `n` skills that are in the category, by category and
/// name; of two that are alike the one that was found first comes first.
pub open spec fn listed(skills: Seq<SkillView>, wanted: Option<Seq<char>>, n: int) -> Seq<SkillView>
    decreases n,
{
    if n <= 0 {
        Seq::empty()
    } else {
        let before = listed(skills, wanted, n - 1);
        let x = skills[n - 1];
        if in_category(x, wanted) {
            before.insert(list_place(before, x, 0), x)
        } else {
            before
        }
    }
}

/// The categories of the first `n` skills.
pub open spec fn categories_of(skills: Seq<SkillView>, n: int) -> Seq<Seq<char>>
    decreases n,
{
    if n <= 0 {
        Seq::empty()
    } else {
        match skills[n - 1].category {
            Some(c) => categories_of(skills, n - 1).push(c),
            None => categories_of(skills, n - 1),
        }
    }
}

pub proof fn lemma_list_place(s: Seq<SkillView>, x: SkillView, i: int)
    requires
        0 <= i <= s.len(),
    ensures
        i <= list_place(s, x, i) <= s.len(),
        forall|k: int| i <= k < list_place(s, x, i) ==> !listed_before(x, #[trigger] s[k]),
        list_place(s, x, i) < s.len() ==> listed_before(x, s[list_place(s, x, i)]),
    decreases s.len() - i,
{
    if i < s.len() && !listed_before(x, s[i]) {
        lemma_list_place(s, x, i + 1);
    }
}

proof fn lemma_listed_before_transitive(a: SkillView, b: SkillView, c: SkillView)
    requires
        !listed_before(b, a),
        !listed_before(c, b),
    ensures
        !listed_before(c, a),
{
    let (ka, kb, kc) = (category_key(a), category_key(b), category_key(c));
    assert(ka.take(0) =~= kb.take(0) && kb.take(0) =~= kc.take(0));
    assert(a.name.take(0) =~= b.name.take(0) && b.name.take(0) =~= c.name.take(0));
    crate::order::lemma_precedes_total(ka, kb, 0);
    crate::order::lemma_precedes_total(kb, kc, 0);
    crate::order::lemma_precedes_total(ka, kc, 0);
    crate::order::lemma_precedes_total(a.name, b.name, 0);
    crate::order::lemma_precedes_total(b.name, c.name, 0);
    crate::order::lemma_precedes_total(a.name, c.name, 0);
    if precedes(ka, kb) && precedes(kb, kc) {
        crate::order::lemma_precedes_transitive(ka, kb, kc, 0);
    }
    if precedes(a.name, b.name) && precedes(b.name, c.name) {
        crate::order::lemma_precedes_transitive(a.name, b.name, c.name, 0);
    }
}

proof fn lemma_listed_before_asymmetric(a: SkillView, b: SkillView)
    requires
        listed_before(a, b),
    ensures
        !listed_before(b, a),
{
    assert(category_key(a).take(0) =~= category_key(b).take(0));
    assert(a.name.take(0) =~= b.name.take(0));
    crate::order::lemma_precedes_total(category_key(a), category_key(b), 0);
    crate::order::lemma_precedes_total(a.name, b.name, 0);
}

/// Skills are listed in order.
pub proof fn law_listed_in_order(skills: Seq<SkillView>, wanted: Option<Seq<char>>, n: int)
    requires
        0 <= n <= skills.len(),
    ensures
        forall|i: int, j: int|
            0 <= i < j < listed(skills, wanted, n).len() ==> !listed_before(
                #[trigger] listed(skills, wanted, n)[j],
                #[trigger] listed(skills, wanted, n)[i],
            ),
    decreases n,
{
    if n > 0 {
        law_listed_in_order(skills, wanted, n - 1);
        let before = listed(skills, wanted, n - 1);
        let x = skills[n - 1];
        let now = listed(skills, wanted, n);
        if in_category(x, wanted) {
            lemma_list_place(before, x, 0);
            let at = list_place(before, x, 0);
            assert forall|i: int, j: int| 0 <= i < j < now.len() implies !listed_before(
                #[trigger] now[j],
                #[trigger] now[i],
            ) by {
                let bi = if i < at {
                    i
                } else {
                    i - 1
                };
                let bj = if j < at {
                    j
                } else {
                    j - 1
                };
                if i != at && j != at {
                    assert(!listed_before(before[bj], before[bi]));
                } else if i == at {
                    lemma_listed_before_asymmetric(x, before[at]);
                    if bj > at {
                        assert(!listed_before(before[bj], before[at]));
                        lemma_listed_before_transitive(x, before[at], before[bj]);
                    }
                } else {
                    assert(!listed_before(x, before[i]));
                }
            }
        }
    }
}

/// What is shown of a skill.
pub open spec fn skill_entry(s: SkillView) -> JsonView {
    JsonView::object().with("name"@, JsonView::Text(s.name)).with(
        "category"@,
        text_or_null(s.category),
    ).with("description"@, JsonView::Text(s.description))
}

/// The reply: the skills, or that they could not be read.
pub open spec fn list_reply(args: JsonView, scan: Result<Seq<SkillView>, Seq<char>>) -> JsonView {
    match scan {
        Err(e) => skill_error("failed to scan skills dir: "@ + e),
        Ok(skills) => {
            let shown = listed(skills, args.text_at("category"@), skills.len() as int);
            let cats = categories_of(skills, skills.len() as int);
            JsonView::object().with("success"@, JsonView::Bool(true)).with(
                "count"@,
                number(shown.len() as u64),
            ).with("categories"@, text_array(sorted_distinct(cats, cats.len() as int))).with(
                "skills"@,
                JsonView::Array(Seq::new(shown.len(), |i: int| skill_entry(shown[i]))),
            ).with(
                "hint"@,
                JsonView::Text("Use skill_view(name) to see full content, tags, and linked files"@),
            )
        },
    }
}

/// The schema of the tool's parameters.
pub open spec fn skills_list_schema() -> JsonView {
    object_schema(
        JsonView::object().with(
            "category"@,
            typed("string"@, "Optional category filter to narrow results"@),
        ),
        Seq::empty(),
    )
}

fn key_of(s: &Skill) -> (r: String)
    ensures
        r@ == category_key(s@),
{
    match &s.category {
        Some(c) => c.clone(),
        None => String::new(),
    }
}

fn comes_before(a: &Skill, b: &Skill) -> (r: bool)
    ensures
        r == listed_before(a@, b@),
{
    let ka = key_of(a);
    let kb = key_of(b);
    precedes_text(ka.as_str(), kb.as_str()) || (same(ka.as_str(), kb.as_str()) && precedes_text(
        a.name.as_str(),
        b.name.as_str(),
    ))
}

fn wanted_category(s: &Skill, wanted: Option<&str>) -> (r: bool)
    ensures
        r == in_category(
            s@,
            match wanted {
                Some(w) => Some(w@),
                None => None,
            },
        ),
{
    match wanted {
        Some(w) => match &s.category {
            Some(c) => same(lower_text(c.as_str()).as_str(), lower_text(w).as_str()),
            None => false,
        },
        None => true,
    }
}

/// The view of what a scan gave.
pub open spec fn scan_view(scan: Result<Vec<Skill>, String>) -> Result<Seq<SkillView>, Seq<char>> {
    match scan {
        Ok(skills) => Ok(skill_views(skills@)),
        Err(e) => Err(e@),
    }
}

impl SkillListTool {
    pub fn new(skills_dir: String) -> (r: Self)
        ensures
            r.skills_dir@ == skills_dir@,
    {
        SkillListTool { skills_dir }
    }

    pub fn name(&self) -> (r: &'static str)
        ensures
            r@ == "skills_list"@,
    {
        "skills_list"
    }

    pub fn description(&self) -> (r: &'static str)
        ensures
            r@ == SKILLS_LIST_DESCRIPTION@,
    {
        SKILLS_LIST_DESCRIPTION
    }

    pub fn toolset(&self) -> (r: &'static str)
        ensures
            r@ == "skills"@,
    {
        "skills"
    }

    pub fn parameters_schema(&self) -> (r: Json)
        ensures
            r@ == skills_list_schema(),
    {
        let none: Vec<String> = Vec::new();
        assert(views(none@) =~= Seq::<Seq<char>>::empty());
        object_schema_json(
            Json::object().with(
                "category",
                typed_param("string", "Optional category filter to narrow results"),
            ),
            &none,
        )
    }

    /// The reply to a call, given what a scan of the skills directory gave.
    pub fn reply(&self, args: &Json, scan: &Result<Vec<Skill>, String>) -> (r: Json)
        ensures
            r@ == list_reply(args@, scan_view(*scan)),
    {
        let skills = match scan {
            Ok(s) => s,
            Err(e) => {
                return skill_error_reply("failed to scan skills dir: ", e.as_str());
            },
        };
        let ghost all = skill_views(skills@);
        let wanted = args.text_at("category");
        let ghost w = args@.text_at("category"@);
        let mut shown: Vec<Skill> = Vec::new();
        let mut cats: Vec<String> = Vec::new();
        let mut k: usize = 0;
        assert(skill_views(shown@) =~= Seq::<SkillView>::empty());
        assert(views(cats@) =~= Seq::<Seq<char>>::empty());
        while k < skills.len()
            invariant
                k <= skills@.len(),
                all == skill_views(skills@),
                w == match wanted {
                    Some(t) => Some(t@),
                    None => None,
                },
                skill_views(shown@) == listed(all, w, k as int),
                views(cats@) == categories_of(all, k as int),
            decreases skills.len() - k,
        {
            let x = &skills[k];
            assert(all[k as int] == x@);
            if let Some(c) = &x.category {
                let ghost before = views(cats@);
                cats.push(c.clone());
                assert(views(cats@) =~= before.push(c@));
            }
            if wanted_category(x, wanted) {
                let ghost before = skill_views(shown@);
                let mut i: usize = 0;
                while i < shown.len() && !comes_before(x, &shown[i])
                    invariant
                        i <= shown@.len(),
                        before == skill_views(shown@),
                        list_place(before, x@, 0) == list_place(before, x@, i as int),
                    decreases shown.len() - i,
                {
                    assert(before[i as int] == shown@[i as int]@);
                    i += 1;
                }
                assert(i < shown@.len() ==> before[i as int] == shown@[i as int]@);
                shown.insert(i, x.copy());
                assert(skill_views(shown@) =~= before.insert(i as int, x@));
            }
            k += 1;
        }
        let ghost sorted = skill_views(shown@);
        let mut entries: Vec<Json> = Vec::new();
        let mut i: usize = 0;
        while i < shown.len()
            invariant
                i <= shown@.len(),
                sorted == skill_views(shown@),
                entries@.len() == i,
                forall|m: int| 0 <= m < i ==> model(entries@[m]) == skill_entry(sorted[m]),
            decreases shown.len() - i,
        {
            assert(sorted[i as int] == shown@[i as int]@);
            let one = Json::object().with("name", Json::text(shown[i].name.as_str())).with(
                "category",
                text_or_null_json(&shown[i].category),
            ).with("description", Json::text(shown[i].description.as_str()));
            entries.push(one);
            i += 1;
        }
        assert(models(entries@) =~= Seq::new(sorted.len(), |i: int| skill_entry(sorted[i])));
        let names = sort_distinct(&cats);
        assert(cats@.len() == views(cats@).len());
        Json::object().with("success", Json::boolean(true)).with(
            "count",
            Json::unsigned(shown.len() as u64),
        ).with("categories", Json::texts(&names)).with("skills", Json::array(entries)).with(
            "hint",
            Json::text("Use skill_view(name) to see full content, tags, and linked files"),
        )
    }
}

/// Just the skills of the category that is asked for are listed, each as
/// often as it was found; without a category all are.
pub proof fn law_skills_of_the_category_are_listed(
    skills: Seq<SkillView>,
    wanted: Option<Seq<char>>,
    n: int,
    x: SkillView,
)
    requires
        0 <= n <= skills.len(),
    ensures
        listed(skills, wanted, n).to_multiset().count(x) == if in_category(x, wanted) {
            skills.take(n).to_multiset().count(x)
        } else {
            0
        },
        wanted is None ==> in_category(x, wanted),
        wanted matches Some(w) ==> (in_category(x, wanted) <==> x.category is Some && lower(
            x.category->0,
        ) == lower(w)),
    decreases n,
{
    broadcast use vstd::multiset::group_multiset_axioms;

    let now = listed(skills, wanted, n);
    if n > 0 {
        law_skills_of_the_category_are_listed(skills, wanted, n - 1, x);
        let g = skills[n - 1];
        let before = listed(skills, wanted, n - 1);
        assert(skills.take(n) =~= skills.take(n - 1).push(g));
        skills.take(n - 1).to_multiset_ensures();
        if in_category(g, wanted) {
            lemma_list_place(before, g, 0);
            let at = list_place(before, g, 0);
            now.to_multiset_ensures();
            assert(now.remove(at) =~= before);
            assert(now[at] == g);
            assert(now.contains(g));
            assert(now.remove(at).to_multiset() =~= now.to_multiset().remove(now[at]));
            assert(now.to_multiset().count(g) > 0);
        }
    } else {
        now.to_multiset_ensures();
        skills.take(0).to_multiset_ensures();
        assert(!now.contains(x));
        assert(!skills.take(0).contains(x));
    }
}

proof fn lemma_categories(skills: Seq<SkillView>, n: int, c: Seq<char>)
    requires
        0 <= n <= skills.len(),
    ensures
        categories_of(skills, n).contains(c) <==> exists|k: int|
            0 <= k < n && (#[trigger] skills[k]).category == Some(c),
    decreases n,
{
    if n > 0 {
        lemma_categories(skills, n - 1, c);
        let before = categories_of(skills, n - 1);
        let now = categories_of(skills, n);
        if before.contains(c) {
            let w = choose|w: int| 0 <= w < before.len() && before[w] == c;
            assert(now[w] == c);
        }
        if skills[n - 1].category == Some(c) {
            assert(now[now.len() - 1] == c);
        }
        if now.contains(c) && !before.contains(c) {
            let w = choose|w: int| 0 <= w < now.len() && now[w] == c;
            assert(w == before.len());
            assert(skills[n - 1].category == Some(c));
        }
    }
}

/// The reply counts and shows every listed skill, with its name, its
/// category and its description, and names all categories there are.
pub proof fn law_every_listed_skill_is_shown(
    args: JsonView,
    skills: Seq<SkillView>,
    i: int,
    c: Seq<char>,
    e: Seq<char>,
)
    requires
        skills.len() <= u64::MAX,
    ensures
        ({
            let shown = listed(skills, args.text_at("category"@), skills.len() as int);
            let reply = list_reply(args, Ok(skills));
            let entries = reply.get("skills"@);
            &&& reply.flag_at("success"@)
            &&& reply.number_at("count"@) == Some(shown.len() as u64)
            &&& entries is Some && entries->0 is Array && entries->0->Array_0.len() == shown.len()
            &&& 0 <= i < shown.len() ==> entries->0->Array_0[i].text_at("name"@) == Some(
                shown[i].name,
            ) && entries->0->Array_0[i].text_at("description"@) == Some(shown[i].description)
                && entries->0->Array_0[i].get("category"@) == Some(text_or_null(shown[i].category))
            &&& exists|names: Seq<Seq<char>>|
                reply.get("categories"@) == Some(#[trigger] text_array(names)) && (names.contains(c)
                    <==> exists|k: int|
                    0 <= k < skills.len() && (#[trigger] skills[k]).category == Some(c))
        }),
        !list_reply(args, Err(e)).flag_at("success"@),
        list_reply(args, Err(e)).get("skills"@) is None,
{
    reveal_strlit("success");
    reveal_strlit("count");
    reveal_strlit("categories");
    reveal_strlit("skills");
    reveal_strlit("hint");
    reveal_strlit("name");
    reveal_strlit("category");
    reveal_strlit("description");
    reveal_strlit("error");
    assert("success"@.len() == 7 && "count"@.len() == 5 && "categories"@.len() == 10
        && "skills"@.len() == 6 && "hint"@.len() == 4 && "name"@.len() == 4 && "category"@.len()
        == 8 && "description"@.len() == 11 && "error"@.len() == 5);
    let n = skills.len() as int;
    let cats = categories_of(skills, n);
    let names = sorted_distinct(cats, cats.len() as int);
    lemma_categories(skills, n, c);
    crate::order::law_sorted_distinct(cats, cats.len() as int);
    assert(cats.take(cats.len() as int) =~= cats);
    assert(list_reply(args, Ok(skills)).get("categories"@) == Some(text_array(names)));
    let shown = listed(skills, args.text_at("category"@), n);
    let entries = Seq::new(shown.len(), |k: int| skill_entry(shown[k]));
    if 0 <= i < shown.len() {
        assert(entries[i] == skill_entry(shown[i]));
    }
}

} // verus!
