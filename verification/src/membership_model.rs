//! Members of the webring and the directory that finds them by identifier
//! and by domain.

use crate::statistics_model::Statistics;
use vstd::prelude::*;
use vstd::string::StringExecFns;

verus! {

/// A registered site. The identifier is the key under which the directory
/// was loaded; an entry flagged hidden stays out of the directory.
#[derive(Clone, Debug)]
pub struct Membership {
    pub id: i64,
    pub domain: String,
    pub name: String,
    pub icon: String,
    pub description: String,
    pub github_username: String,
    pub hidden: Option<bool>,
}

/// A member as contracts see it: every text by its characters.
pub struct MembershipView {
    pub id: i64,
    pub domain: Seq<char>,
    pub name: Seq<char>,
    pub icon: Seq<char>,
    pub description: Seq<char>,
    pub github_username: Seq<char>,
    pub hidden: Option<bool>,
}

impl View for Membership {
    type V = MembershipView;

    open spec fn view(&self) -> MembershipView {
        MembershipView {
            id: self.id,
            domain: self.domain@,
            name: self.name@,
            icon: self.icon@,
            description: self.description@,
            github_username: self.github_username@,
            hidden: self.hidden,
        }
    }
}

impl MembershipView {
    /// The entry is flagged hidden.
    pub open spec fn is_hidden(self) -> bool {
        self.hidden == Some(true)
    }

    /// The member under the identifier `id`.
    pub open spec fn with_id(self, id: i64) -> MembershipView {
        MembershipView { id, ..self }
    }

    /// The member as live subscribers may see it: without description,
    /// icon and user name.
    pub open spec fn redacted(self) -> MembershipView {
        MembershipView {
            description: Seq::<char>::empty(),
            icon: Seq::<char>::empty(),
            github_username: Seq::<char>::empty(),
            ..self
        }
    }
}

impl Membership {
    /// A copy of the member.
    pub fn duplicate(&self) -> (copy: Membership)
        ensures
            copy@ == self@,
    {
        Membership {
            id: self.id,
            domain: self.domain.clone(),
            name: self.name.clone(),
            icon: self.icon.clone(),
            description: self.description.clone(),
            github_username: self.github_username.clone(),
            hidden: self.hidden,
        }
    }

    /// A copy of the member for live subscribers: description, icon and
    /// user name are left empty.
    pub fn redacted(&self) -> (copy: Membership)
        ensures
            copy@ == self@.redacted(),
    {
        Membership {
            id: self.id,
            domain: self.domain.clone(),
            name: self.name.clone(),
            icon: String::new(),
            description: String::new(),
            github_username: String::new(),
            hidden: self.hidden,
        }
    }
}

/// An entry of a ranking together with the member that it ranks.
#[derive(Clone, Debug)]
pub struct RankAndMembership {
    pub rank: Statistics,
    pub membership: Membership,
}

/// Some member of `members` has the identifier `id`.
pub open spec fn has_id(members: Seq<MembershipView>, id: i64) -> bool {
    exists|i: int| 0 <= i < members.len() && (#[trigger] members[i]).id == id
}

/// No two members share an identifier.
pub open spec fn distinct_ids(members: Seq<MembershipView>) -> bool {
    forall|i: int, j: int|
        0 <= i < j < members.len() ==> (#[trigger] members[i]).id != (#[trigger] members[j]).id
}

/// The directory that the first `n` loaded entries give: each entry under
/// its key, in the order of loading, without the hidden entries and
/// without an entry whose key an earlier member already has.
pub open spec fn directory_upto(entries: Seq<(i64, Membership)>, n: int) -> Seq<MembershipView>
    decreases n,
{
    if n <= 0 {
        Seq::<MembershipView>::empty()
    } else {
        let earlier = directory_upto(entries, n - 1);
        let (id, member) = entries[n - 1];
        if member@.is_hidden() || has_id(earlier, id) {
            earlier
        } else {
            earlier.push(member@.with_id(id))
        }
    }
}

/// The directory that the loaded entries give.
pub open spec fn directory_from(entries: Seq<(i64, Membership)>) -> Seq<MembershipView> {
    directory_upto(entries, entries.len() as int)
}

/// Position of the first member at or behind `from` whose domain is
/// `domain`; the number of members where there is none.
pub open spec fn domain_index(members: Seq<MembershipView>, domain: Seq<char>, from: int) -> int
    decreases members.len() - from,
{
    if from < 0 || from >= members.len() {
        members.len() as int
    } else if members[from].domain == domain {
        from
    } else {
        domain_index(members, domain, from + 1)
    }
}

/// The member that answers for `domain`: the first one with that domain.
pub open spec fn member_of_domain(members: Seq<MembershipView>, domain: Seq<char>) -> Option<
    MembershipView,
> {
    let i = domain_index(members, domain, 0);
    if i < members.len() {
        Some(members[i])
    } else {
        None
    }
}

/// The member of `members` with the identifier `id`, where there is one.
pub open spec fn member_of_id(members: Seq<MembershipView>, id: i64) -> Option<MembershipView> {
    if has_id(members, id) {
        Some(members[choose|i: int| 0 <= i < members.len() && (#[trigger] members[i]).id == id])
    } else {
        None
    }
}

/// Members that do not have the domain are passed over by the search.
pub proof fn lemma_domain_index_skips(
    members: Seq<MembershipView>,
    domain: Seq<char>,
    from: int,
    to: int,
)
    requires
        0 <= from <= to <= members.len(),
        forall|j: int| from <= j < to ==> (#[trigger] members[j]).domain != domain,
    ensures
        domain_index(members, domain, from) == domain_index(members, domain, to),
    decreases to - from,
{
    if from < to {
        lemma_domain_index_skips(members, domain, from + 1, to);
    }
}

/// Among distinct identifiers, the member with an identifier is the one
/// at any position that has it.
pub proof fn lemma_member_of_id(members: Seq<MembershipView>, i: int)
    requires
        distinct_ids(members),
        0 <= i < members.len(),
    ensures
        member_of_id(members, members[i].id) == Some(members[i]),
{
    let id = members[i].id;
    assert(has_id(members, id));
    let k = choose|k: int| 0 <= k < members.len() && (#[trigger] members[k]).id == id;
    if k < i {
        assert(members[k].id != members[i].id);
    } else if i < k {
        assert(members[i].id != members[k].id);
    }
}

/// The members of the webring, fixed once loaded.
pub struct MemberDirectory {
    members: Vec<Membership>,
}

impl View for MemberDirectory {
    type V = Seq<MembershipView>;

    closed spec fn view(&self) -> Seq<MembershipView> {
        Seq::new(self.members@.len(), |i: int| self.members@[i]@)
    }
}

impl MemberDirectory {
    /// The directory is well formed: no two members share an identifier.
    pub open spec fn wf(&self) -> bool {
        distinct_ids(self@)
    }

    /// Builds the directory from the loaded entries.
    pub fn load(entries: &Vec<(i64, Membership)>) -> (directory: MemberDirectory)
        ensures
            directory.wf(),
            directory@ == directory_from(entries@),
    {
        let mut directory = MemberDirectory { members: Vec::new() };
        let mut n: usize = 0;
        assert(directory@ =~= directory_upto(entries@, 0));
        while n < entries.len()
            invariant
                n <= entries.len(),
                directory.wf(),
                directory@ == directory_upto(entries@, n as int),
            decreases entries.len() - n,
        {
            let id: i64 = entries[n].0;
            let hidden: bool = match entries[n].1.hidden {
                Some(flag) => flag,
                None => false,
            };
            if !hidden {
                let known = directory.position_of(id);
                if known.is_none() {
                    let mut member = entries[n].1.duplicate();
                    member.id = id;
                    let ghost before = directory@;
                    directory.members.push(member);
                    assert(directory@ =~= before.push(entries@[n as int].1@.with_id(id)));
                }
            }
            n = n + 1;
        }
        directory
    }

    /// Number of members.
    pub fn len(&self) -> (count: usize)
        ensures
            count == self@.len(),
    {
        self.members.len()
    }

    /// The member at position `i`.
    pub fn member(&self, i: usize) -> (member: &Membership)
        requires
            i < self@.len(),
        ensures
            member@ == self@[i as int],
    {
        &self.members[i]
    }

    /// Position of the member with the identifier `id`.
    pub fn position_of(&self, id: i64) -> (found: Option<usize>)
        ensures
            match found {
                Some(i) => i < self@.len() && self@[i as int].id == id,
                None => !has_id(self@, id),
            },
            self.wf() ==> (match found {
                Some(i) => member_of_id(self@, id) == Some(self@[i as int]),
                None => member_of_id(self@, id) is None,
            }),
    {
        let mut i: usize = 0;
        while i < self.members.len()
            invariant
                i <= self.members.len(),
                forall|j: int| 0 <= j < i ==> (#[trigger] self@[j]).id != id,
            decreases self.members.len() - i,
        {
            if self.members[i].id == id {
                proof {
                    if self.wf() {
                        lemma_member_of_id(self@, i as int);
                    }
                }
                return Some(i);
            }
            i = i + 1;
        }
        None
    }

    /// Position of the first member whose domain is `domain`.
    pub fn position_of_domain(&self, domain: &str) -> (found: Option<usize>)
        ensures
            match found {
                Some(i) => i < self@.len() && i == domain_index(self@, domain@, 0)
                    && member_of_domain(self@, domain@) == Some(self@[i as int]),
                None => member_of_domain(self@, domain@) is None,
            },
    {
        let wanted = String::from_str(domain);
        let mut i: usize = 0;
        while i < self.members.len()
            invariant
                i <= self.members.len(),
                wanted@ == domain@,
                forall|j: int| 0 <= j < i ==> (#[trigger] self@[j]).domain != domain@,
            decreases self.members.len() - i,
        {
            if self.members[i].domain == wanted {
                proof {
                    lemma_domain_index_skips(self@, domain@, 0, i as int);
                }
                return Some(i);
            }
            i = i + 1;
        }
        proof {
            lemma_domain_index_skips(self@, domain@, 0, i as int);
        }
        None
    }
}

} // verus!
