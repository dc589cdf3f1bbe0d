//! Institutions: the places where citizens work, and what staff they need.

use crate::culture::Culture;
use crate::dice::{random_below, random_index};
use crate::identity::{fresh_id, random_uuid_shape};
use crate::seqs::{filter_facts, filter_start, filter_step};
use rand::rngs::StdRng;
use std::collections::HashMap;
use vstd::prelude::*;
use vstd::std_specs::iter::IteratorSpec;
use vstd::string::*;

verus! {

broadcast use vstd::std_specs::hash::group_hash_axioms;

/// The broad purpose of an institution.
#[derive(Clone, Copy, Debug, PartialEq, Eq, Structural)]
pub enum InsitutionCategory {
    Goverment,
    Underworld,
    Altar,
    Resource,
    Defence,
    Social,
}

/// The particular sort of place an institution is.
#[derive(Clone, Copy, Debug, PartialEq, Eq, Structural)]
pub enum InsitutionType {
    Hall,
    Hospital,
    Dock,
    School,
    Library,
    University,
    Prison,
    ShadyBar,
    Fence,
    Altar,
    Chapel,
    GeneralRetail,
    SpecialistRetail,
    Office,
    Bank,
    PoliceStation,
    Pub,
    Restaurant,
    Hotel,
    Theater,
    Casino,
    Club,
    Gym,
    TattooParlor,
}

pub type InstitutionId = u128;

/// A management post: its title, the titles that report to it, and how
/// many reportees one holder of the post takes.
#[derive(Clone, Debug)]
pub struct ManagementSpecification {
    pub title: String,
    pub reportee_types: Vec<String>,
    pub min_reportees: u32,
    pub max_reportees: u32,
}

/// One member of staff: who, under which title, for what pay, since when.
#[derive(Clone, Debug)]
pub struct StaffDefinition {
    pub title: String,
    pub employee_id: u128,
    pub salary: u32,
    pub started_year: usize,
}

/// An institution and its staff.  The roster files every member of staff
/// under their own id.
#[derive(Clone, Debug)]
pub struct Institution {
    pub id: InstitutionId,
    pub name: String,
    pub category: InsitutionCategory,
    pub management: Vec<ManagementSpecification>,
    pub base_job_titles: Vec<String>,
    pub staff: HashMap<u128, StaffDefinition>,
    pub related_diety: Option<u128>,
    pub wealth: usize,
}

/// The staff an institution is short of.
#[derive(Clone, Copy, Debug, PartialEq, Eq, Structural)]
pub enum RoleDemand {
    /// A holder of the management post at this position.
    Manager(usize),
    /// Someone under one of the base titles.
    Base,
    /// Nobody.
    Nothing,
}

/// The base capacity of an institution without managers.
pub const BASE_CAPACITY: usize = 2;

/// A count as far as the number range goes.
pub open spec fn capped(count: int) -> int {
    if count < u128::MAX {
        count
    } else {
        u128::MAX as int
    }
}

/// Whether `title` is among `titles`.
pub open spec fn names_title(titles: Seq<String>, title: Seq<char>) -> bool {
    exists|i: int| 0 <= i < titles.len() && (#[trigger] titles[i])@ == title
}

/// Whether `title` is among `titles`.
pub fn has_title(titles: &Vec<String>, title: &String) -> (yes: bool)
    ensures
        yes == names_title(titles@, title@),
{
    let mut i: usize = 0;
    while i < titles.len()
        invariant
            i <= titles@.len(),
            forall|j: int| 0 <= j < i ==> (#[trigger] titles@[j])@ != title@,
        decreases titles@.len() - i,
    {
        if titles[i] == *title {
            return true;
        }
        i += 1;
    }
    false
}

impl Institution {
    /// Whether `id` is on the roster.
    pub open spec fn employs(&self, id: u128) -> bool {
        self.staff@.contains_key(id)
    }

    /// Every entry of the roster is filed under the citizen it names.
    pub open spec fn wf(&self) -> bool {
        forall|id: u128|
            self.staff@.contains_key(id) ==> (#[trigger] self.staff@[id]).employee_id == id
    }

    /// A roster is empty exactly where nobody is on it.
    pub proof fn roster_is_empty(&self)
        ensures
            self.staff@.len() == 0 <==> forall|x: u128| !self.employs(x),
    {
        let on = self.staff@.dom();
        if forall|x: u128| !self.employs(x) {
            assert forall|x: u128| !on.contains(x) by {
                assert(!self.employs(x));
            }
            assert(on =~= Set::<u128>::empty());
        } else {
            let x = choose|x: u128| self.employs(x);
            let one = Set::<u128>::empty().insert(x);
            assert(one.subset_of(on));
            vstd::set_lib::lemma_len_subset(one, on);
        }
    }

    /// The same institution as `other`, staff aside.
    pub open spec fn same_but_staff(&self, other: &Institution) -> bool {
        &&& self.id == other.id
        &&& self.name == other.name
        &&& self.category == other.category
        &&& self.management == other.management
        &&& self.base_job_titles == other.base_job_titles
        &&& self.related_diety == other.related_diety
        &&& self.wealth == other.wealth
    }

    /// Whether the post at `i` is the first under its title.
    pub open spec fn first_post(&self, title: Seq<char>, i: int) -> bool {
        &&& 0 <= i < self.management@.len()
        &&& self.management@[i].title@ == title
        &&& forall|j: int| 0 <= j < i ==> (#[trigger] self.management@[j]).title@ != title
    }

    /// Whether the institution hires under `title`: the title of one of
    /// its management posts, or one of its base titles.
    pub open spec fn hires_under(&self, title: Seq<char>) -> bool {
        self.manager_title(title) || names_title(self.base_job_titles@, title)
    }

    /// Whether some management post carries `title`.
    pub open spec fn manager_title(&self, title: Seq<char>) -> bool {
        exists|i: int| 0 <= i < self.management@.len() && (#[trigger] self.management@[i]).title@
            == title
    }

    /// How many of the staff pass `test`.
    pub open spec fn head_count(&self, test: spec_fn(u128) -> bool) -> nat {
        self.staff@.dom().filter(test).len()
    }

    /// The test for holding no management title.
    pub open spec fn is_basic(&self) -> spec_fn(u128) -> bool {
        |id: u128| !self.manager_title(self.staff@[id].title@)
    }

    /// The test for reporting to the post at `i`.
    pub open spec fn reports_to(&self, i: int) -> spec_fn(u128) -> bool {
        |id: u128| names_title(self.management@[i].reportee_types@, self.staff@[id].title@)
    }

    /// The test for holding the title of the post at `i`.
    pub open spec fn holds_post(&self, i: int) -> spec_fn(u128) -> bool {
        |id: u128| self.staff@[id].title@ == self.management@[i].title@
    }

    /// The reportees that the holders of the titles of the first `n` posts
    /// take between them.  Each holder of a title takes what the first
    /// post under that title allows; a later post under the same title
    /// adds nothing.
    pub open spec fn managed_capacity(&self, n: int) -> int
        decreases n,
    {
        if n <= 0 {
            0
        } else {
            self.managed_capacity(n - 1) + (if self.first_post(
                self.management@[n - 1].title@,
                n - 1,
            ) {
                self.management@[n - 1].max_reportees * self.head_count(self.holds_post(n - 1))
            } else {
                0
            })
        }
    }

    /// How many base staff the institution can take: the base capacity,
    /// and what its managers take between them.
    pub open spec fn base_capacity(&self) -> int {
        BASE_CAPACITY + self.managed_capacity(self.management@.len() as int)
    }

    /// Whether the post at `i` is short of a holder: more staff report to
    /// it than its holders can take between them.
    pub open spec fn needs_manager(&self, i: int) -> bool {
        self.head_count(self.reports_to(i)) > self.management@[i].max_reportees * self.head_count(
            self.holds_post(i),
        )
    }

    /// Whether the institution is short of base staff.
    pub open spec fn needs_base_staff(&self) -> bool {
        self.head_count(self.is_basic()) < self.base_capacity() || self.staff@.len() == 0
    }

    /// Whether `demand` is what the institution is short of.  Without base
    /// titles it hires nobody.  Otherwise the first post short of a holder
    /// comes first; base staff come next.
    pub open spec fn is_demand(&self, demand: RoleDemand) -> bool {
        let post_wanted = self.base_job_titles@.len() > 0 && exists|i: int|
            0 <= i < self.management@.len() && self.needs_manager(i);
        match demand {
            RoleDemand::Manager(i) => post_wanted && i < self.management@.len()
                && self.needs_manager(i as int) && forall|j: int|
                0 <= j < i ==> !self.needs_manager(j),
            RoleDemand::Base => self.base_job_titles@.len() > 0 && !post_wanted
                && self.needs_base_staff(),
            RoleDemand::Nothing => self.base_job_titles@.len() == 0 || (!post_wanted
                && !self.needs_base_staff()),
        }
    }

    /// The citizens on the roster, each once.
    pub fn staff_ids(&self) -> (ids: Vec<u128>)
        ensures
            ids@.no_duplicates(),
            forall|id: u128| ids@.contains(id) <==> self.employs(id),
    {
        let mut ids: Vec<u128> = Vec::new();
        for key in it: self.staff.keys()
            invariant
                it.seq() == self.staff.keys().remaining(),
                ids@ == it.seq().take(it.index()).unref(),
        {
            ids.push(*key);
        }
        proof {
            assert(ids@ == self.staff.keys().remaining().unref());
            assert(ids@.to_set() == self.staff@.dom());
            assert forall|id: u128| ids@.contains(id) <==> self.employs(id) by {
                assert(ids@.to_set().contains(id) <==> ids@.contains(id));
            }
        }
        ids
    }

    /// The entry of `id` on the roster.
    pub fn entry_of(&self, id: u128) -> (found: Option<&StaffDefinition>)
        ensures
            found is Some <==> self.employs(id),
            found matches Some(entry) ==> *entry == self.staff@[id],
    {
        self.staff.get(&id)
    }

    /// Those of a list of the whole staff that pass a test are as many as
    /// the staff that pass it.
    proof fn listed_count(&self, ids: Seq<u128>, test: spec_fn(u128) -> bool)
        requires
            ids.no_duplicates(),
            forall|id: u128| ids.contains(id) <==> self.employs(id),
        ensures
            ids.filter(test).len() == self.head_count(test),
    {
        let kept = ids.filter(test);
        filter_facts(ids, test);
        kept.unique_seq_to_set();
        assert(kept.to_set() =~= self.staff@.dom().filter(test)) by {
            assert forall|x: u128| kept.to_set().contains(x) <==> self.staff@.dom().filter(
                test,
            ).contains(x) by {
                assert(kept.to_set().contains(x) <==> kept.contains(x));
            }
        }
    }

    fn post_named(&self, title: &String) -> (found: Option<usize>)
        ensures
            found matches Some(i) ==> self.first_post(title@, i as int),
            found is None ==> !self.manager_title(title@),
    {
        let mut i: usize = 0;
        while i < self.management.len()
            invariant
                i <= self.management@.len(),
                forall|j: int| 0 <= j < i ==> (#[trigger] self.management@[j]).title@ != title@,
            decreases self.management@.len() - i,
        {
            if self.management[i].title == *title {
                return Some(i);
            }
            i += 1;
        }
        None
    }

    /// How many of the staff hold no management title.
    fn basic_count(&self) -> (basic: usize)
        ensures
            basic == self.head_count(self.is_basic()),
    {
        let ids = self.staff_ids();
        let mut basic: usize = 0;
        let mut i: usize = 0;
        proof {
            filter_start(ids@, self.is_basic());
        }
        while i < ids.len()
            invariant
                i <= ids@.len(),
                forall|id: u128| ids@.contains(id) <==> self.employs(id),
                basic <= i,
                basic == ids@.take(i as int).filter(self.is_basic()).len(),
            decreases ids@.len() - i,
        {
            proof {
                filter_step(ids@, i as int, self.is_basic());
                assert(ids@.contains(ids@[i as int]));
            }
            let entry = self.entry_of(ids[i]).unwrap();
            if self.post_named(&entry.title).is_none() {
                basic += 1;
            }
            i += 1;
        }
        proof {
            assert(ids@.take(i as int) =~= ids@);
            self.listed_count(ids@, self.is_basic());
        }
        basic
    }

    /// How many of the staff hold the title of the post at `at`.
    fn holder_count(&self, at: usize) -> (holding: usize)
        requires
            at < self.management@.len(),
        ensures
            holding == self.head_count(self.holds_post(at as int)),
    {
        let post = &self.management[at];
        let ids = self.staff_ids();
        let mut holding: usize = 0;
        let mut i: usize = 0;
        proof {
            filter_start(ids@, self.holds_post(at as int));
        }
        while i < ids.len()
            invariant
                at < self.management@.len(),
                *post == self.management@[at as int],
                i <= ids@.len(),
                forall|id: u128| ids@.contains(id) <==> self.employs(id),
                holding <= i,
                holding == ids@.take(i as int).filter(self.holds_post(at as int)).len(),
            decreases ids@.len() - i,
        {
            proof {
                filter_step(ids@, i as int, self.holds_post(at as int));
                assert(ids@.contains(ids@[i as int]));
            }
            let entry = self.entry_of(ids[i]).unwrap();
            if entry.title == post.title {
                holding += 1;
            }
            i += 1;
        }
        proof {
            assert(ids@.take(i as int) =~= ids@);
            self.listed_count(ids@, self.holds_post(at as int));
        }
        holding
    }

    /// How many of the staff report to the post at `at`.
    fn reportee_count(&self, at: usize) -> (reporting: usize)
        requires
            at < self.management@.len(),
        ensures
            reporting == self.head_count(self.reports_to(at as int)),
    {
        let post = &self.management[at];
        let ids = self.staff_ids();
        let mut reporting: usize = 0;
        let mut i: usize = 0;
        proof {
            filter_start(ids@, self.reports_to(at as int));
        }
        while i < ids.len()
            invariant
                at < self.management@.len(),
                *post == self.management@[at as int],
                i <= ids@.len(),
                forall|id: u128| ids@.contains(id) <==> self.employs(id),
                reporting <= i,
                reporting == ids@.take(i as int).filter(self.reports_to(at as int)).len(),
            decreases ids@.len() - i,
        {
            proof {
                filter_step(ids@, i as int, self.reports_to(at as int));
                assert(ids@.contains(ids@[i as int]));
            }
            let entry = self.entry_of(ids[i]).unwrap();
            if has_title(&post.reportee_types, &entry.title) {
                reporting += 1;
            }
            i += 1;
        }
        proof {
            assert(ids@.take(i as int) =~= ids@);
            self.listed_count(ids@, self.reports_to(at as int));
        }
        reporting
    }

    /// What the holders of one title take between them.
    fn room_under(&self, at: usize) -> (room: u128)
        requires
            at < self.management@.len(),
        ensures
            room == self.management@[at as int].max_reportees * self.head_count(
                self.holds_post(at as int),
            ),
            room <= 0xffff_ffff * 0xffff_ffff_ffff_ffff,
    {
        let holding: usize = self.holder_count(at);
        let each: u32 = self.management[at].max_reportees;
        proof {
            assert(0 <= each * holding <= 0xffff_ffff * 0xffff_ffff_ffff_ffff) by (nonlinear_arith)
                requires
                    0 <= each <= 0xffff_ffff,
                    0 <= holding <= 0xffff_ffff_ffff_ffff,
            ;
        }
        (each as u128) * (holding as u128)
    }

    /// The base capacity, as far as the number range goes.
    fn capacity(&self) -> (total: u128)
        ensures
            total == capped(self.base_capacity()),
    {
        let mut total: u128 = BASE_CAPACITY as u128;
        let mut at: usize = 0;
        while at < self.management.len()
            invariant
                at <= self.management@.len(),
                self.managed_capacity(at as int) >= 0,
                total == capped(BASE_CAPACITY + self.managed_capacity(at as int)),
            decreases self.management@.len() - at,
        {
            let first: bool = match self.post_named(&self.management[at].title) {
                Some(i) => i == at,
                None => false,
            };
            proof {
                if self.first_post(self.management@[at as int].title@, at as int) {
                    assert(first) by {
                        assert(self.manager_title(self.management@[at as int].title@));
                    }
                }
            }
            if first {
                let room: u128 = self.room_under(at);
                total = if total > u128::MAX - room {
                    u128::MAX
                } else {
                    total + room
                };
            }
            at += 1;
        }
        total
    }

    fn post_is_short(&self, at: usize) -> (short: bool)
        requires
            at < self.management@.len(),
        ensures
            short == self.needs_manager(at as int),
    {
        let reporting: usize = self.reportee_count(at);
        let room: u128 = self.room_under(at);
        reporting as u128 > room
    }

    /// What staff the institution is short of.
    pub fn open_role(&self) -> (demand: RoleDemand)
        ensures
            self.is_demand(demand),
    {
        if self.base_job_titles.len() == 0 {
            return RoleDemand::Nothing;
        }
        let mut at: usize = 0;
        while at < self.management.len()
            invariant
                at <= self.management@.len(),
                self.base_job_titles@.len() > 0,
                forall|j: int| 0 <= j < at ==> !self.needs_manager(j),
            decreases self.management@.len() - at,
        {
            if self.post_is_short(at) {
                return RoleDemand::Manager(at);
            }
            at += 1;
        }
        let basic: usize = self.basic_count();
        let room: u128 = self.capacity();
        if (basic as u128) < room || self.staff.len() == 0 {
            RoleDemand::Base
        } else {
            RoleDemand::Nothing
        }
    }

    /// The title the institution hires under next, if it hires: the title
    /// of the post it is short of, or one of its base titles, drawn.
    pub fn next_role(&self, rng: &mut StdRng) -> (role: Option<String>)
        ensures
            role is None <==> self.is_demand(RoleDemand::Nothing),
            role matches Some(title) ==> (exists|i: int|
                0 <= i < self.management@.len() && self.is_demand(RoleDemand::Manager(i as usize))
                    && title@ == (#[trigger] self.management@[i]).title@) || (self.is_demand(
                RoleDemand::Base,
            ) && names_title(self.base_job_titles@, title@)),
    {
        let demand = self.open_role();
        proof {
            if self.is_demand(RoleDemand::Nothing) {
                self.demand_is_unique(demand, RoleDemand::Nothing);
            }
        }
        self.role_for(rng, demand)
    }

    /// The title to hire under for a given demand.
    pub fn role_for(&self, rng: &mut StdRng, demand: RoleDemand) -> (role: Option<String>)
        requires
            self.is_demand(demand),
        ensures
            role is None <==> demand == RoleDemand::Nothing,
            role matches Some(title) ==> match demand {
                RoleDemand::Manager(i) => title@ == self.management@[i as int].title@,
                RoleDemand::Base => names_title(self.base_job_titles@, title@),
                RoleDemand::Nothing => false,
            },
    {
        match demand {
            RoleDemand::Manager(i) => Some(self.management[i].title.clone()),
            RoleDemand::Base => {
                let at: usize = random_index(rng, self.base_job_titles.len());
                Some(self.base_job_titles[at].clone())
            },
            RoleDemand::Nothing => None,
        }
    }

    /// An institution without staff that has a base title hires, and under
    /// a base title.
    pub proof fn unstaffed_hires(&self)
        requires
            self.staff@.len() == 0,
            self.base_job_titles@.len() > 0,
        ensures
            self.is_demand(RoleDemand::Base),
    {
        self.roster_is_empty();
        assert forall|test: spec_fn(u128) -> bool| #[trigger] self.head_count(test) == 0 by {
            assert forall|x: u128| !self.staff@.dom().filter(test).contains(x) by {
                assert(!self.employs(x));
            }
            assert(self.staff@.dom().filter(test) =~= Set::<u128>::empty());
        }
        assert forall|i: int| 0 <= i < self.management@.len() implies !self.needs_manager(i) by {
            assert(self.head_count(self.reports_to(i)) == 0);
            assert(self.head_count(self.holds_post(i)) == 0);
            assert(self.management@[i].max_reportees * 0 == 0);
        }
    }

    /// An institution is short of one thing at a time.
    pub proof fn demand_is_unique(&self, one: RoleDemand, other: RoleDemand)
        requires
            self.is_demand(one),
            self.is_demand(other),
        ensures
            one == other,
    {
        if let RoleDemand::Manager(i) = one {
            if let RoleDemand::Manager(j) = other {
                if i < j {
                    assert(!self.needs_manager(i as int));
                } else if j < i {
                    assert(!self.needs_manager(j as int));
                }
            }
        }
    }
}

/// What the lexicon supplies for one name template: the rendered name
/// and the tags of the template.
#[derive(Clone, Debug)]
pub struct TemplateDraw {
    pub name: String,
    pub tags: Vec<String>,
}

/// What the lexicon supplies for one new institution: a template for each
/// sort the city founds.
#[derive(Clone, Debug)]
pub struct Venture {
    pub underworld: TemplateDraw,
    pub temple: TemplateDraw,
    pub social: TemplateDraw,
}

/// A management post as plain values.
pub struct PostView {
    pub title: Seq<char>,
    pub reportee_types: Seq<Seq<char>>,
    pub min_reportees: u32,
    pub max_reportees: u32,
}

/// The views of a list of strings.
pub open spec fn texts_of(items: Seq<String>) -> Seq<Seq<char>> {
    Seq::new(items.len(), |i: int| items[i]@)
}

impl View for ManagementSpecification {
    type V = PostView;

    open spec fn view(&self) -> PostView {
        PostView {
            title: self.title@,
            reportee_types: texts_of(self.reportee_types@),
            min_reportees: self.min_reportees,
            max_reportees: self.max_reportees,
        }
    }
}

/// The views of a list of management posts.
pub open spec fn posts_of(management: Seq<ManagementSpecification>) -> Seq<PostView> {
    Seq::new(management.len(), |i: int| management[i]@)
}

/// A post with one reporting title.
pub open spec fn post(title: Seq<char>, reportee: Seq<char>, min: u32, max: u32) -> PostView {
    PostView { title, reportee_types: seq![reportee], min_reportees: min, max_reportees: max }
}

/// The management posts of a social institution, by what it offers.
pub open spec fn social_posts(food: bool, theater: bool, music: bool, cinema: bool) -> Seq<
    PostView,
> {
    (if food {
        seq![post("Chef"@, "Cook"@, 1, 4), post("Manager"@, "Waiter"@, 1, 4)]
    } else {
        Seq::empty()
    }) + (if theater {
        seq![post("Stage Hand"@, "Actor"@, 1, 4)]
    } else {
        Seq::empty()
    }) + (if music {
        seq![post("Musician"@, "Actor"@, 1, 4)]
    } else {
        Seq::empty()
    }) + (if cinema {
        seq![post("Manager"@, "Shopkeeper"@, 2, 6)]
    } else {
        Seq::empty()
    })
}

/// The base titles of a social institution, by what it offers.
pub open spec fn social_titles(food: bool, theater: bool, music: bool, cinema: bool) -> Seq<
    Seq<char>,
> {
    (if food {
        seq!["Cook"@, "Waiter"@]
    } else {
        Seq::empty()
    }) + (if theater {
        seq!["Actor"@]
    } else {
        Seq::empty()
    }) + (if music {
        seq!["Waiter"@]
    } else {
        Seq::empty()
    }) + (if cinema {
        seq!["Waiter"@]
    } else {
        Seq::empty()
    })
}

/// The text that `str::replace` makes of `text` when every match of `from`
/// gives way to `to`.
pub uninterp spec fn replaced(text: Seq<char>, from: Seq<char>, to: Seq<char>) -> Seq<char>;

/// Calls `str::replace`.
///
/// Trusted: the result is the one text that `str::replace` gives for these
/// three texts.  Nothing else is claimed of it.
#[verifier::external_body]
fn replace_all(text: &str, from: &str, to: &str) -> (out: String)
    ensures
        out@ == replaced(text@, from@, to@),
{
    text.replace(from, to)
}

fn new_post(title: &str, reportee: &str, min: u32, max: u32) -> (made: ManagementSpecification)
    ensures
        made@ == post(title@, reportee@, min, max),
{
    let mut reportee_types: Vec<String> = Vec::new();
    reportee_types.push(String::from_str(reportee));
    let made = ManagementSpecification {
        title: String::from_str(title),
        reportee_types,
        min_reportees: min,
        max_reportees: max,
    };
    assert(made@.reportee_types =~= seq![reportee@]);
    made
}

/// Whether a template carries `tag`.
pub fn has_tag(tags: &Vec<String>, tag: &str) -> (yes: bool)
    ensures
        yes == names_title(tags@, tag@),
{
    let wanted = String::from_str(tag);
    has_title(tags, &wanted)
}

/// An underworld institution: a fence with shopkeepers, or a seedy bar
/// with waiters, and no management.
pub fn underground_from(id: u128, name: String, is_fence: bool) -> (made: Institution)
    ensures
        made.id == id,
        made.name == name,
        made.category == InsitutionCategory::Underworld,
        made.management@.len() == 0,
        texts_of(made.base_job_titles@) == (if is_fence {
            seq!["Shopkeeper"@]
        } else {
            seq!["Waiter"@]
        }),
        made.staff@.len() == 0,
        made.related_diety is None,
        made.wealth == 0,
{
    let mut base_job_titles: Vec<String> = Vec::new();
    if is_fence {
        base_job_titles.push(String::from_str("Shopkeeper"));
    } else {
        base_job_titles.push(String::from_str("Waiter"));
    }
    let made = Institution {
        id,
        name,
        category: InsitutionCategory::Underworld,
        management: Vec::new(),
        base_job_titles,
        staff: HashMap::new(),
        related_diety: None,
        wealth: 0,
    };
    assert(texts_of(made.base_job_titles@) =~= (if is_fence {
        seq!["Shopkeeper"@]
    } else {
        seq!["Waiter"@]
    }));
    made
}

/// A temple to the deity `diety`: an altar, with priests under a minister.
pub fn temple_from(id: u128, name: String, diety: u128) -> (made: Institution)
    ensures
        made.id == id,
        made.name == name,
        made.category == InsitutionCategory::Altar,
        posts_of(made.management@) == seq![post("Minister"@, "Priest"@, 1, 4)],
        texts_of(made.base_job_titles@) == seq!["Priest"@],
        made.staff@.len() == 0,
        made.related_diety == Some(diety),
        made.wealth == 0,
{
    let mut management: Vec<ManagementSpecification> = Vec::new();
    management.push(new_post("Minister", "Priest", 1, 4));
    let mut base_job_titles: Vec<String> = Vec::new();
    base_job_titles.push(String::from_str("Priest"));
    let made = Institution {
        id,
        name,
        category: InsitutionCategory::Altar,
        management,
        base_job_titles,
        staff: HashMap::new(),
        related_diety: Some(diety),
        wealth: 0,
    };
    assert(posts_of(made.management@) =~= seq![post("Minister"@, "Priest"@, 1, 4)]);
    assert(texts_of(made.base_job_titles@) =~= seq!["Priest"@]);
    made
}

/// A social institution, staffed by what it offers: cooks under a chef
/// and waiters under a manager where there is food, actors under a stage
/// hand where there is theatre, waiters and a musician where there is
/// music, waiters and a manager where there is a cinema.
pub fn social_from(id: u128, name: String, food: bool, theater: bool, music: bool, cinema: bool) -> (made:
    Institution)
    ensures
        made.id == id,
        made.name == name,
        made.category == InsitutionCategory::Social,
        posts_of(made.management@) == social_posts(food, theater, music, cinema),
        texts_of(made.base_job_titles@) == social_titles(food, theater, music, cinema),
        made.staff@.len() == 0,
        made.related_diety is None,
        made.wealth == 0,
{
    let mut management: Vec<ManagementSpecification> = Vec::new();
    let mut base_job_titles: Vec<String> = Vec::new();
    if food {
        base_job_titles.push(String::from_str("Cook"));
        management.push(new_post("Chef", "Cook", 1, 4));
        base_job_titles.push(String::from_str("Waiter"));
        management.push(new_post("Manager", "Waiter", 1, 4));
    }
    assert(posts_of(management@) =~= social_posts(food, false, false, false));
    assert(texts_of(base_job_titles@) =~= social_titles(food, false, false, false));
    if theater {
        base_job_titles.push(String::from_str("Actor"));
        management.push(new_post("Stage Hand", "Actor", 1, 4));
    }
    assert(posts_of(management@) =~= social_posts(food, theater, false, false));
    assert(texts_of(base_job_titles@) =~= social_titles(food, theater, false, false));
    if music {
        base_job_titles.push(String::from_str("Waiter"));
        management.push(new_post("Musician", "Actor", 1, 4));
    }
    assert(posts_of(management@) =~= social_posts(food, theater, music, false));
    assert(texts_of(base_job_titles@) =~= social_titles(food, theater, music, false));
    if cinema {
        base_job_titles.push(String::from_str("Waiter"));
        management.push(new_post("Manager", "Shopkeeper", 2, 6));
    }
    assert(posts_of(management@) =~= social_posts(food, theater, music, cinema));
    assert(texts_of(base_job_titles@) =~= social_titles(food, theater, music, cinema));
    Institution {
        id,
        name,
        category: InsitutionCategory::Social,
        management,
        base_job_titles,
        staff: HashMap::new(),
        related_diety: None,
        wealth: 0,
    }
}

/// Whether `made` is the underworld institution of the template: a fence
/// with shopkeepers where the template is tagged `Fence`, a seedy bar with
/// waiters otherwise, without management or staff.
pub open spec fn is_underground(made: &Institution, draw: &TemplateDraw) -> bool {
    &&& made.name == draw.name
    &&& made.category == InsitutionCategory::Underworld
    &&& made.management@.len() == 0
    &&& texts_of(made.base_job_titles@) == (if names_title(draw.tags@, "Fence"@) {
        seq!["Shopkeeper"@]
    } else {
        seq!["Waiter"@]
    })
    &&& made.staff@.len() == 0
    &&& made.related_diety is None
    &&& made.wealth == 0
}

/// Whether `made` is the social institution of the template, staffed by
/// the template's tags `Food`, `Theater`, `Music` and `Cinema`.
pub open spec fn is_social(made: &Institution, draw: &TemplateDraw) -> bool {
    &&& made.name == draw.name
    &&& made.category == InsitutionCategory::Social
    &&& posts_of(made.management@) == social_posts(
        names_title(draw.tags@, "Food"@),
        names_title(draw.tags@, "Theater"@),
        names_title(draw.tags@, "Music"@),
        names_title(draw.tags@, "Cinema"@),
    )
    &&& texts_of(made.base_job_titles@) == social_titles(
        names_title(draw.tags@, "Food"@),
        names_title(draw.tags@, "Theater"@),
        names_title(draw.tags@, "Music"@),
        names_title(draw.tags@, "Cinema"@),
    )
    &&& made.staff@.len() == 0
    &&& made.related_diety is None
    &&& made.wealth == 0
}

/// The name of a temple: the template's name with `Concept` giving way to
/// the deity's first realm, then `Diety` to the deity's name.
pub open spec fn temple_name(template: Seq<char>, realm: Seq<char>, diety: Seq<char>) -> Seq<char> {
    replaced(replaced(template, "Concept"@, realm), "Diety"@, diety)
}

/// Whether `made` is a temple of the template to the deity that the
/// culture files under `key`: an altar, with priests under a minister,
/// named after the deity and its first realm.
pub open spec fn is_temple_to(made: &Institution, culture: &Culture, draw: &TemplateDraw, key: u128) -> bool {
    &&& culture.has_diety(key)
    &&& culture.dieties@[key].realms@.len() > 0
    &&& made.related_diety == Some(culture.dieties@[key].id)
    &&& made.name@ == temple_name(
        draw.name@,
        culture.dieties@[key].realms@[0]@,
        culture.dieties@[key].name@,
    )
    &&& made.category == InsitutionCategory::Altar
    &&& posts_of(made.management@) == seq![post("Minister"@, "Priest"@, 1, 4)]
    &&& texts_of(made.base_job_titles@) == seq!["Priest"@]
    &&& made.staff@.len() == 0
    &&& made.wealth == 0
}

/// Whether `made` is a temple of the template to one of the culture's deities.
pub open spec fn is_temple(made: &Institution, culture: &Culture, draw: &TemplateDraw) -> bool {
    exists|key: u128| #[trigger] is_temple_to(made, culture, draw, key)
}

/// A new underworld institution from a template.
pub fn generate_underground(draw: TemplateDraw) -> (made: Institution)
    ensures
        random_uuid_shape(made.id),
        is_underground(&made, &draw),
{
    let is_fence: bool = has_tag(&draw.tags, "Fence");
    underground_from(fresh_id(), draw.name, is_fence)
}

/// A new social institution from a template.
pub fn generate_social(draw: TemplateDraw) -> (made: Institution)
    ensures
        random_uuid_shape(made.id),
        is_social(&made, &draw),
{
    let food: bool = has_tag(&draw.tags, "Food");
    let theater: bool = has_tag(&draw.tags, "Theater");
    let music: bool = has_tag(&draw.tags, "Music");
    let cinema: bool = has_tag(&draw.tags, "Cinema");
    social_from(fresh_id(), draw.name, food, theater, music, cinema)
}

/// A new temple from a template, to a deity drawn from the culture's.
/// There is no temple where the culture has no deity, or where the deity
/// drawn has no realm.
pub fn generate_temple(rng: &mut StdRng, culture: &Culture, draw: TemplateDraw) -> (made: Option<
    Institution,
>)
    ensures
        culture.dieties@.len() == 0 ==> made is None,
        can_raise_temples(culture) ==> made is Some,
        made matches Some(temple) ==> random_uuid_shape(temple.id) && is_temple(
            &temple,
            culture,
            &draw,
        ),
{
    if culture.dieties.len() == 0 {
        return None;
    }
    let keys = culture.diety_keys();
    let at: usize = random_index(rng, keys.len());
    let key: u128 = keys[at];
    proof {
        assert(keys@.contains(key));
    }
    let diety = culture.diety(key).unwrap();
    if diety.realms.len() == 0 {
        return None;
    }
    let with_realm = replace_all(draw.name.as_str(), "Concept", diety.realms[0].as_str());
    let name = replace_all(with_realm.as_str(), "Diety", diety.name.as_str());
    let temple = temple_from(fresh_id(), name, diety.id);
    proof {
        assert(is_temple_to(&temple, culture, &draw, key));
    }
    Some(temple)
}

/// Whether a social institution of this template has titles to hire
/// under: the template carries one of the tags `Food`, `Theater`, `Music`
/// and `Cinema`.
pub open spec fn staffed_by_tags(draw: &TemplateDraw) -> bool {
    names_title(draw.tags@, "Food"@) || names_title(draw.tags@, "Theater"@) || names_title(
        draw.tags@,
        "Music"@,
    ) || names_title(draw.tags@, "Cinema"@)
}

/// An institution founded of a venture whose social template is staffed by
/// its tags has a base title, whatever its sort.
pub proof fn founded_with_titles(made: &Institution, culture: &Culture, venture: &Venture)
    requires
        staffed_by_tags(&venture.social),
        is_underground(made, &venture.underworld) || is_social(made, &venture.social) || is_temple(
            made,
            culture,
            &venture.temple,
        ),
    ensures
        made.base_job_titles@.len() > 0,
        made.staff@.len() == 0,
{
    let titles = texts_of(made.base_job_titles@);
    assert(titles.len() == made.base_job_titles@.len());
    if is_temple(made, culture, &venture.temple) {
        let key = choose|key: u128| #[trigger] is_temple_to(made, culture, &venture.temple, key);
        assert(titles == seq!["Priest"@]);
        assert(titles.len() == 1);
    } else if is_underground(made, &venture.underworld) {
        assert(titles.len() == 1);
    } else {
        let food = names_title(venture.social.tags@, "Food"@);
        let theater = names_title(venture.social.tags@, "Theater"@);
        let music = names_title(venture.social.tags@, "Music"@);
        let cinema = names_title(venture.social.tags@, "Cinema"@);
        assert(titles == social_titles(food, theater, music, cinema));
        assert(social_titles(food, theater, music, cinema).len() > 0);
    }
}

/// The sort of institution the city founds next.
#[derive(Clone, Copy, Debug, PartialEq, Eq, Structural)]
pub enum Founding {
    Underworld,
    Temple,
    Social,
}

/// The sort for a per-mille draw: 20% underworld, 20% temple, else social.
pub open spec fn founding_for(roll: u32) -> Founding {
    if roll < 200 {
        Founding::Underworld
    } else if roll < 400 {
        Founding::Temple
    } else {
        Founding::Social
    }
}

/// The sort of institution for a per-mille draw.
pub fn founding_of_roll(roll: u32) -> (sort: Founding)
    ensures
        sort == founding_for(roll),
{
    if roll < 200 {
        Founding::Underworld
    } else if roll < 400 {
        Founding::Temple
    } else {
        Founding::Social
    }
}

/// Whether the culture has a deity, and every deity of it a realm: a
/// temple can then always be made.
pub open spec fn can_raise_temples(culture: &Culture) -> bool {
    culture.dieties@.len() > 0 && forall|key: u128|
        culture.has_diety(key) ==> (#[trigger] culture.dieties@[key]).realms@.len() > 0
}

/// Whether `made` is what founding an institution of `sort` from the
/// venture gives.  An underworld or a social institution is always made,
/// from its template.  A temple is made from its template to one of the
/// culture's deities: always where every deity has a realm, never where
/// there is no deity.
pub open spec fn founded_as(
    sort: Founding,
    made: Option<Institution>,
    culture: &Culture,
    venture: &Venture,
) -> bool {
    &&& made matches Some(institution) ==> random_uuid_shape(institution.id)
    &&& match sort {
        Founding::Underworld => made is Some && is_underground(&made->0, &venture.underworld),
        Founding::Social => made is Some && is_social(&made->0, &venture.social),
        Founding::Temple => {
            &&& made matches Some(temple) ==> is_temple(&temple, culture, &venture.temple)
            &&& culture.dieties@.len() == 0 ==> made is None
            &&& can_raise_temples(culture) ==> made is Some
        },
    }
}

/// A new institution of the given sort, from the venture's template for
/// that sort, without staff.
pub fn institution_of_sort(rng: &mut StdRng, culture: &Culture, venture: Venture, sort: Founding) -> (made:
    Option<Institution>)
    ensures
        founded_as(sort, made, culture, &venture),
{
    match sort {
        Founding::Underworld => Some(generate_underground(venture.underworld)),
        Founding::Temple => generate_temple(rng, culture, venture.temple),
        Founding::Social => Some(generate_social(venture.social)),
    }
}

/// A new institution of a drawn sort: two in ten underworld, two in ten a
/// temple, the rest social.  There is none where a temple is drawn and
/// cannot be made.
///
/// Whatever is drawn, the institution is what founding one of the sort of
/// some draw gives; and one is made for certain where the culture can
/// always raise a temple.
pub fn random_institution(rng: &mut StdRng, culture: &Culture, venture: Venture) -> (made: Option<
    Institution,
>)
    ensures
        exists|roll: u32|
            roll < 1000 && founded_as(#[trigger] founding_for(roll), made, culture, &venture),
        can_raise_temples(culture) ==> made is Some,
        made matches Some(institution) ==> random_uuid_shape(institution.id) && (is_underground(
            &institution,
            &venture.underworld,
        ) || is_social(&institution, &venture.social) || is_temple(
            &institution,
            culture,
            &venture.temple,
        )),
{
    let roll: u32 = random_below(rng, 1000);
    let made = institution_of_sort(rng, culture, venture, founding_of_roll(roll));
    proof {
        assert(roll < 1000 && founded_as(founding_for(roll), made, culture, &venture));
    }
    made
}

} // verus!
