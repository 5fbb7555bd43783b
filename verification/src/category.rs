//! The category store: creation, lookup and deletion of hierarchical
//! spending categories with ownership and uniqueness invariants.

use vstd::prelude::*;
use vstd::string::StringExecFns;

verus! {

/// The owner of a set of categories. Produced by an external authentication
/// component; the store only reads its integer identity.
#[derive(Debug, Clone, Copy, PartialEq, Eq)]
pub struct User {
    pub id: i32,
}

/// One row of the categories table.
#[derive(Debug, PartialEq)]
pub struct Category {
    pub id: i32,
    pub name: String,
    pub description: Option<String>,
    pub user_id: i32,
    pub parent_id: Option<i32>,
}

impl Clone for Category {
    fn clone(&self) -> (c: Self)
        ensures
            c == *self,
    {
        Category {
            id: self.id,
            name: self.name.clone(),
            description: match &self.description {
                Some(d) => Some(d.clone()),
                None => None,
            },
            user_id: self.user_id,
            parent_id: self.parent_id,
        }
    }
}

/// A storage-level failure, as the backing store's driver reports it. The
/// two constraint violations are recognised and translated into domain
/// errors; everything else is carried through as an opaque failure.
#[derive(Debug, PartialEq)]
pub enum StorageError {
    /// The unique index over user, parent and name rejected a write.
    UniqueViolation,
    /// The foreign key over the parent pointer rejected a write.
    ForeignKeyViolation,
    /// The store has no identity left to assign to a new row.
    IdentityExhausted,
    /// Any other failure reported by the storage driver.
    Other(String),
}

/// The errors a category operation can report. All are expected,
/// recoverable-by-caller conditions.
#[derive(Debug, PartialEq)]
pub enum CategoryErrorKind {
    /// The category with the given name and parent already exists.
    CategoryAlreadyExists { name: String, parent: Option<String> },
    /// A category could not be created due to a storage error.
    CreationFailed(StorageError),
    /// A category could not be deleted due to a storage error.
    DeletionFailed(StorageError),
    /// A category could not be deleted because it has child categories.
    HasChildren(i32),
    /// Some required data is missing.
    MissingData(String),
    /// A category could not be deleted because it does not exist.
    NotDeleted(i32),
    /// A category was passed that belongs to the wrong user.
    ParentCategoryHasWrongUser(i32, i32),
}

/// The description of a storage failure, as it appears inside a wrapped
/// error's message.
pub open spec fn storage_message_spec(e: StorageError) -> Seq<char> {
    match e {
        StorageError::UniqueViolation => "unique constraint violation"@,
        StorageError::ForeignKeyViolation => "foreign key constraint violation"@,
        StorageError::IdentityExhausted => "no identity left to assign"@,
        StorageError::Other(m) => m@,
    }
}

/// The user-facing message for each category error.
pub open spec fn message_spec(e: CategoryErrorKind) -> Seq<char> {
    match e {
        CategoryErrorKind::CategoryAlreadyExists { name, parent } => match parent {
            Some(p) => "The child category '"@ + name@
                + "' already exists in the parent category '"@ + p@ + "'"@,
            None => "The root category '"@ + name@ + "' already exists"@,
        },
        CategoryErrorKind::CreationFailed(err) => "Database error when creating category: "@
            + storage_message_spec(err),
        CategoryErrorKind::DeletionFailed(err) => "Database error when deleting category: "@
            + storage_message_spec(err),
        CategoryErrorKind::HasChildren(id) => "The category with ID "@ + crate::text::int_str(
            id as int,
        ) + " could not be deleted because it has child categories"@,
        CategoryErrorKind::MissingData(f) => "Missing data for field: "@ + f@,
        CategoryErrorKind::NotDeleted(id) => "Could not delete category "@ + crate::text::int_str(
            id as int,
        ) + " because it does not exist"@,
        CategoryErrorKind::ParentCategoryHasWrongUser(expected, actual) => {
            "Expected parent category for user "@ + crate::text::int_str(expected as int)
                + " instead of user "@ + crate::text::int_str(actual as int)
        },
    }
}

impl StorageError {
    /// A short description of the storage failure.
    pub fn message(&self) -> (r: String)
        ensures
            r@ == storage_message_spec(*self),
    {
        match self {
            StorageError::UniqueViolation => "unique constraint violation".to_owned(),
            StorageError::ForeignKeyViolation => "foreign key constraint violation".to_owned(),
            StorageError::IdentityExhausted => "no identity left to assign".to_owned(),
            StorageError::Other(m) => m.clone(),
        }
    }
}

impl CategoryErrorKind {
    /// The message that presents the error to an end user.
    pub fn message(&self) -> (r: String)
        ensures
            r@ == message_spec(*self),
    {
        match self {
            CategoryErrorKind::CategoryAlreadyExists { name, parent } => match parent {
                Some(p) => {
                    let mut out = "The child category '".to_owned();
                    out.append(name.as_str());
                    out.append("' already exists in the parent category '");
                    out.append(p.as_str());
                    out.append("'");
                    proof {
                        assert(out@ =~= message_spec(*self));
                    }
                    out
                },
                None => {
                    let mut out = "The root category '".to_owned();
                    out.append(name.as_str());
                    out.append("' already exists");
                    proof {
                        assert(out@ =~= message_spec(*self));
                    }
                    out
                },
            },
            CategoryErrorKind::CreationFailed(err) => {
                let mut out = "Database error when creating category: ".to_owned();
                let m = err.message();
                out.append(m.as_str());
                out
            },
            CategoryErrorKind::DeletionFailed(err) => {
                let mut out = "Database error when deleting category: ".to_owned();
                let m = err.message();
                out.append(m.as_str());
                out
            },
            CategoryErrorKind::HasChildren(id) => {
                let mut out = "The category with ID ".to_owned();
                crate::text::push_i32(&mut out, *id);
                out.append(" could not be deleted because it has child categories");
                proof {
                    assert(out@ =~= message_spec(*self));
                }
                out
            },
            CategoryErrorKind::MissingData(f) => {
                let mut out = "Missing data for field: ".to_owned();
                out.append(f.as_str());
                out
            },
            CategoryErrorKind::NotDeleted(id) => {
                let mut out = "Could not delete category ".to_owned();
                crate::text::push_i32(&mut out, *id);
                out.append(" because it does not exist");
                proof {
                    assert(out@ =~= message_spec(*self));
                }
                out
            },
            CategoryErrorKind::ParentCategoryHasWrongUser(expected, actual) => {
                let mut out = "Expected parent category for user ".to_owned();
                crate::text::push_i32(&mut out, *expected);
                out.append(" instead of user ");
                crate::text::push_i32(&mut out, *actual);
                proof {
                    assert(out@ =~= message_spec(*self));
                }
                out
            },
        }
    }
}

/// The parent id a new row would carry for the given optional parent.
pub open spec fn parent_id_of(parent: Option<&Category>) -> Option<i32> {
    match parent {
        Some(p) => Some(p.id),
        None => None,
    }
}

/// Whether some row of the table has the given id.
pub open spec fn has_id(s: Seq<Category>, id: i32) -> bool {
    exists|i: int| 0 <= i < s.len() && (#[trigger] s[i]).id == id
}

/// Whether some row of the table references the given id as its parent.
pub open spec fn has_child(s: Seq<Category>, id: i32) -> bool {
    exists|i: int| 0 <= i < s.len() && (#[trigger] s[i]).parent_id == Some(id)
}

/// Whether some row of the table carries the given owner, parent and name —
/// the triple covered by the uniqueness constraint.
pub open spec fn has_key(s: Seq<Category>, user_id: i32, parent_id: Option<i32>, name: Seq<char>) -> bool {
    exists|i: int|
        0 <= i < s.len() && (#[trigger] s[i]).user_id == user_id && s[i].parent_id == parent_id
            && s[i].name@ == name
}

/// The first row of the table with the given id, if any.
pub open spec fn lookup(s: Seq<Category>, id: i32) -> Option<Category>
    decreases s.len(),
{
    if s.len() == 0 {
        None
    } else if s[0].id == id {
        Some(s[0])
    } else {
        lookup(s.subrange(1, s.len() as int), id)
    }
}

/// No two rows share an id.
pub open spec fn ids_unique(s: Seq<Category>) -> bool {
    forall|i: int, j: int|
        0 <= i < s.len() && 0 <= j < i ==> (#[trigger] s[i]).id != (#[trigger] s[j]).id
}

/// No two rows share owner, parent and name — the uniqueness constraint of
/// the table.
pub open spec fn keys_unique(s: Seq<Category>) -> bool {
    forall|i: int, j: int|
        0 <= i < s.len() && 0 <= j < i ==> !((#[trigger] s[i]).user_id == (#[trigger] s[j]).user_id
            && s[i].parent_id == s[j].parent_id && s[i].name@ == s[j].name@)
}

/// The parent pointer of the given row, when present, references a row of
/// the table owned by the same user.
pub open spec fn parent_link_ok(s: Seq<Category>, c: Category) -> bool {
    match c.parent_id {
        Some(p) => exists|j: int|
            0 <= j < s.len() && (#[trigger] s[j]).id == p && s[j].user_id == c.user_id,
        None => true,
    }
}

/// Every parent pointer of the table references a row of the table owned by
/// the same user — referential integrity plus the same-owner rule.
pub open spec fn parents_resolve(s: Seq<Category>) -> bool {
    forall|i: int| 0 <= i < s.len() ==> parent_link_ok(s, #[trigger] s[i])
}

/// Every stored name is already trimmed and non-empty.
pub open spec fn names_valid(s: Seq<Category>) -> bool {
    forall|i: int|
        0 <= i < s.len() ==> (#[trigger] s[i]).name@ == crate::text::trim_spec(s[i].name@)
            && s[i].name@.len() > 0
}

/// All invariants of the categories table together.
pub open spec fn table_wf(s: Seq<Category>) -> bool {
    ids_unique(s) && keys_unique(s) && parents_resolve(s) && names_valid(s)
}

/// A caller-supplied parent is consistent with the table: it was materialized
/// by an earlier `read`, and rows are never updated, so if its id is still
/// present, the stored row is that very value. (The row may have been deleted
/// since; that is allowed and surfaces as a failed insert.)
pub open spec fn parent_consistent(s: Seq<Category>, parent: Option<&Category>) -> bool {
    match parent {
        Some(p) => has_id(s, p.id) ==> lookup(s, p.id) == Some(*p),
        None => true,
    }
}

/// The categories table of one backing store: rows plus the next identity
/// the store will generate.
pub struct CategoryStore {
    categories: Vec<Category>,
    next_id: i32,
}

impl View for CategoryStore {
    type V = Seq<Category>;

    closed spec fn view(&self) -> Seq<Category> {
        self.categories@
    }
}

impl CategoryStore {
    /// The identity the store will assign to the next created category.
    pub closed spec fn fresh_id(&self) -> int {
        self.next_id as int
    }

    /// The store's invariant: the table invariants hold, and every stored id
    /// was generated earlier, so the next identity is fresh.
    pub closed spec fn wf(&self) -> bool {
        &&& table_wf(self@)
        &&& 1 <= self.next_id
        &&& forall|i: int| 0 <= i < self@.len() ==> 1 <= (#[trigger] self@[i]).id < self.next_id
    }

    /// The table of a well-formed store satisfies the table invariants, and
    /// no stored row carries the next identity or any later one.
    pub proof fn lemma_wf_table(&self)
        requires
            self.wf(),
        ensures
            table_wf(self@),
            forall|id: i32| self.fresh_id() <= id as int ==> !has_id(self@, id),
    {
        assert forall|id: i32| self.fresh_id() <= id as int implies !has_id(self@, id) by {
            assert forall|i: int| 0 <= i < self@.len() implies (#[trigger] self@[i]).id != id by {
                assert(self@[i].id < self.next_id);
            }
        }
    }

    /// An empty store.
    pub fn new() -> (store: CategoryStore)
        ensures
            store.wf(),
            store@.len() == 0,
            store.fresh_id() == 1,
    {
        CategoryStore { categories: Vec::new(), next_id: 1 }
    }

    /// The number of categories currently stored.
    pub fn count(&self) -> (n: usize)
        ensures
            n == self@.len(),
    {
        self.categories.len()
    }

    /// Whether a category with the given id exists.
    pub fn contains_id(&self, id: i32) -> (r: bool)
        ensures
            r == has_id(self@, id),
    {
        let n = self.categories.len();
        let mut i: usize = 0;
        while i < n
            invariant
                n == self@.len(),
                i <= n,
                forall|k: int| 0 <= k < i ==> (#[trigger] self@[k]).id != id,
            decreases n - i,
        {
            if self.categories[i].id == id {
                return true;
            }
            i = i + 1;
        }
        false
    }
}

proof fn lemma_lookup_found(s: Seq<Category>, i: int, id: i32)
    requires
        0 <= i < s.len(),
        s[i].id == id,
        forall|k: int| 0 <= k < i ==> (#[trigger] s[k]).id != id,
    ensures
        lookup(s, id) == Some(s[i]),
    decreases i,
{
    if i > 0 {
        let t = s.subrange(1, s.len() as int);
        assert forall|k: int| 0 <= k < i - 1 implies (#[trigger] t[k]).id != id by {
            assert(t[k] == s[k + 1]);
        }
        lemma_lookup_found(t, i - 1, id);
    }
}

proof fn lemma_lookup_absent(s: Seq<Category>, id: i32)
    requires
        forall|k: int| 0 <= k < s.len() ==> (#[trigger] s[k]).id != id,
    ensures
        lookup(s, id) is None,
    decreases s.len(),
{
    if s.len() > 0 {
        let t = s.subrange(1, s.len() as int);
        assert forall|k: int| 0 <= k < t.len() implies (#[trigger] t[k]).id != id by {
            assert(t[k] == s[k + 1]);
        }
        lemma_lookup_absent(t, id);
    }
}

/// A successful lookup returns a row of the table carrying the looked-up id,
/// and a lookup succeeds exactly when such a row exists.
pub proof fn lemma_lookup_props(s: Seq<Category>, id: i32)
    ensures
        (lookup(s, id) is Some) <==> has_id(s, id),
        lookup(s, id) matches Some(c) ==> c.id == id && exists|i: int|
            0 <= i < s.len() && s[i] == c,
    decreases s.len(),
{
    if s.len() > 0 && s[0].id != id {
        let t = s.subrange(1, s.len() as int);
        lemma_lookup_props(t, id);
        if has_id(s, id) {
            let i = choose|i: int| 0 <= i < s.len() && (#[trigger] s[i]).id == id;
            assert(t[i - 1] == s[i]);
            assert(has_id(t, id));
        }
        if lookup(t, id) is Some {
            let c = lookup(t, id).unwrap();
            let i = choose|i: int| 0 <= i < t.len() && t[i] == c;
            assert(s[i + 1] == t[i]);
        }
        if has_id(t, id) {
            let i = choose|i: int| 0 <= i < t.len() && (#[trigger] t[i]).id == id;
            assert(s[i + 1] == t[i]);
        }
    }
}

/// The stored description matches the supplied one.
pub open spec fn description_matches(stored: Option<String>, given: Option<&str>) -> bool {
    match (stored, given) {
        (Some(s), Some(g)) => s@ == g@,
        (None, None) => true,
        _ => false,
    }
}

/// The recorded parent name matches the supplied parent.
pub open spec fn parent_name_matches(recorded: Option<String>, parent: Option<&Category>) -> bool {
    match (recorded, parent) {
        (Some(n), Some(p)) => n@ == p.name@,
        (None, None) => true,
        _ => false,
    }
}

fn opt_id_eq(a: Option<i32>, b: Option<i32>) -> (r: bool)
    ensures
        r == (a == b),
{
    match (a, b) {
        (None, None) => true,
        (Some(x), Some(y)) => x == y,
        _ => false,
    }
}

/// Classifies a failed insert: a unique violation means the category already
/// exists under that name and parent; every other storage failure is wrapped
/// unchanged.
pub fn insert_error(err: StorageError, name: String, parent: Option<String>) -> (e: CategoryErrorKind)
    ensures
        e == (match err {
            StorageError::UniqueViolation => (CategoryErrorKind::CategoryAlreadyExists {
                name,
                parent,
            }),
            _ => CategoryErrorKind::CreationFailed(err),
        }),
{
    match err {
        StorageError::UniqueViolation => CategoryErrorKind::CategoryAlreadyExists { name, parent },
        other => CategoryErrorKind::CreationFailed(other),
    }
}

/// Classifies the outcome of a delete statement for the given id: a foreign
/// key violation means the category still has children; any other storage
/// failure is wrapped unchanged; zero affected rows means there was nothing
/// to delete; one or more affected rows is success.
pub fn delete_outcome(result: Result<usize, StorageError>, id: i32) -> (r: Result<
    (),
    CategoryErrorKind,
>)
    ensures
        r == (match result {
            Ok(n) => if n == 0 {
                Err::<(), CategoryErrorKind>(CategoryErrorKind::NotDeleted(id))
            } else {
                Ok::<(), CategoryErrorKind>(())
            },
            Err(StorageError::ForeignKeyViolation) => Err::<(), CategoryErrorKind>(
                CategoryErrorKind::HasChildren(id),
            ),
            Err(e) => Err::<(), CategoryErrorKind>(CategoryErrorKind::DeletionFailed(e)),
        }),
{
    match result {
        Ok(n) => {
            if n == 0 {
                Err(CategoryErrorKind::NotDeleted(id))
            } else {
                Ok(())
            }
        },
        Err(StorageError::ForeignKeyViolation) => Err(CategoryErrorKind::HasChildren(id)),
        Err(e) => Err(CategoryErrorKind::DeletionFailed(e)),
    }
}

impl CategoryStore {
    fn contains_key(&self, user_id: i32, parent_id: Option<i32>, name: &String) -> (r: bool)
        ensures
            r == has_key(self@, user_id, parent_id, name@),
    {
        let n = self.categories.len();
        let mut i: usize = 0;
        while i < n
            invariant
                n == self@.len(),
                i <= n,
                forall|k: int|
                    0 <= k < i ==> !((#[trigger] self@[k]).user_id == user_id
                        && self@[k].parent_id == parent_id && self@[k].name@ == name@),
            decreases n - i,
        {
            let c = &self.categories[i];
            if c.user_id == user_id && opt_id_eq(c.parent_id, parent_id) && c.name.eq(name) {
                return true;
            }
            i = i + 1;
        }
        false
    }
}

/// Creates a category owned by the given user, under the given parent.
///
/// The raw name is trimmed of Unicode whitespace on both ends; a name that
/// trims to nothing is rejected as missing data. A supplied parent must
/// belong to the requesting user. The insert itself can fail on the foreign
/// key (the parent row has been deleted since it was read), on the unique
/// index (the user already has a category of that name under that parent) —
/// reported as `CategoryAlreadyExists` — or because the store has no
/// identity left. On success the fully materialized category, including its
/// generated identity, is returned, and it is the one row appended to the
/// table; on any failure the table is unchanged.
pub fn create(
    store: &mut CategoryStore,
    user: &User,
    name: &str,
    description: Option<&str>,
    parent: Option<&Category>,
) -> (result: Result<Category, CategoryErrorKind>)
    requires
        old(store).wf(),
        parent_consistent(old(store)@, parent),
    ensures
        final(store).wf(),
        (match result {
            Ok(c) => {
                &&& crate::text::trim_spec(name@).len() > 0
                &&& (parent matches Some(p) ==> p.user_id == user.id && has_id(old(store)@, p.id))
                &&& !has_key(old(store)@, user.id, parent_id_of(parent), crate::text::trim_spec(name@))
                &&& old(store).fresh_id() < i32::MAX
                &&& c.id == old(store).fresh_id()
                &&& !has_id(old(store)@, c.id)
                &&& c.name@ == crate::text::trim_spec(name@)
                &&& description_matches(c.description, description)
                &&& c.user_id == user.id
                &&& c.parent_id == parent_id_of(parent)
                &&& final(store)@ == old(store)@.push(c)
                &&& final(store).fresh_id() == old(store).fresh_id() + 1
            },
            Err(e) => {
                &&& *final(store) == *old(store)
                &&& (match e {
                    CategoryErrorKind::MissingData(field) => {
                        &&& field@ == "category name"@
                        &&& crate::text::trim_spec(name@).len() == 0
                    },
                    CategoryErrorKind::ParentCategoryHasWrongUser(requesting, owner) => {
                        &&& crate::text::trim_spec(name@).len() > 0
                        &&& requesting == user.id
                        &&& parent matches Some(p) && p.user_id == owner && owner != user.id
                    },
                    CategoryErrorKind::CreationFailed(se) => {
                        &&& crate::text::trim_spec(name@).len() > 0
                        &&& (parent matches Some(p) ==> p.user_id == user.id)
                        &&& (match se {
                            StorageError::ForeignKeyViolation => parent matches Some(p)
                                && !has_id(old(store)@, p.id),
                            StorageError::IdentityExhausted => {
                                &&& (parent matches Some(p) ==> has_id(old(store)@, p.id))
                                &&& !has_key(
                                    old(store)@,
                                    user.id,
                                    parent_id_of(parent),
                                    crate::text::trim_spec(name@),
                                )
                                &&& old(store).fresh_id() == i32::MAX
                            },
                            _ => false,
                        })
                    },
                    CategoryErrorKind::CategoryAlreadyExists { name: n, parent: pn } => {
                        &&& crate::text::trim_spec(name@).len() > 0
                        &&& (parent matches Some(p) ==> p.user_id == user.id && has_id(
                            old(store)@,
                            p.id,
                        ))
                        &&& n@ == crate::text::trim_spec(name@)
                        &&& parent_name_matches(pn, parent)
                        &&& has_key(
                            old(store)@,
                            user.id,
                            parent_id_of(parent),
                            crate::text::trim_spec(name@),
                        )
                    },
                    _ => false,
                })
            },
        }),
{
    // Validate the category name.
    let trimmed = crate::text::trim(name);
    if trimmed.as_str().is_empty() {
        return Err(CategoryErrorKind::MissingData("category name".to_owned()));
    }
    let parent_id: Option<i32>;
    let parent_name: Option<String>;
    match parent {
        Some(p) => {
            // Check that the parent category belongs to the same user.
            if p.user_id != user.id {
                return Err(CategoryErrorKind::ParentCategoryHasWrongUser(user.id, p.user_id));
            }
            parent_id = Some(p.id);
            parent_name = Some(p.name.clone());
            // The parent row must still exist: the foreign key restricts the
            // insert otherwise.
            if !store.contains_id(p.id) {
                return Err(insert_error(StorageError::ForeignKeyViolation, trimmed, parent_name));
            }
        },
        None => {
            parent_id = None;
            parent_name = None;
        },
    }
    // The unique index rejects a second row with the same owner, parent and
    // name.
    if store.contains_key(user.id, parent_id, &trimmed) {
        return Err(insert_error(StorageError::UniqueViolation, trimmed, parent_name));
    }
    // The identity is generated by the store.
    if store.next_id == i32::MAX {
        return Err(insert_error(StorageError::IdentityExhausted, trimmed, parent_name));
    }
    let id = store.next_id;
    store.next_id = id + 1;
    let desc: Option<String> = match description {
        Some(d) => Some(d.to_owned()),
        None => None,
    };
    let c = Category { id, name: trimmed, description: desc, user_id: user.id, parent_id };
    let row = c.clone();
    proof {
        crate::text::lemma_trim_idempotent(name@);
        lemma_create_preserves_wf(old(store)@, *user, parent, c);
    }
    store.categories.push(row);
    Ok(c)
}

proof fn lemma_create_preserves_wf(
    s: Seq<Category>,
    user: User,
    parent: Option<&Category>,
    c: Category,
)
    requires
        table_wf(s),
        parent_consistent(s, parent),
        c.user_id == user.id,
        c.parent_id == parent_id_of(parent),
        c.name@ == crate::text::trim_spec(c.name@),
        c.name@.len() > 0,
        parent matches Some(p) ==> p.user_id == user.id && has_id(s, p.id),
        !has_key(s, user.id, parent_id_of(parent), c.name@),
        forall|i: int| 0 <= i < s.len() ==> (#[trigger] s[i]).id != c.id,
    ensures
        table_wf(s.push(c)),
{
    let t = s.push(c);
    assert forall|i: int| 0 <= i < t.len() implies parent_link_ok(t, #[trigger] t[i]) by {
        if i < s.len() {
            assert(t[i] == s[i]);
            assert(parent_link_ok(s, s[i]));
            match s[i].parent_id {
                Some(p) => {
                    let j = choose|j: int|
                        0 <= j < s.len() && (#[trigger] s[j]).id == p && s[j].user_id
                            == s[i].user_id;
                    assert(t[j] == s[j]);
                },
                None => {},
            }
        } else {
            assert(t[i] == c);
            match parent {
                Some(p) => {
                    lemma_lookup_props(s, p.id);
                    let pc = lookup(s, p.id).unwrap();
                    assert(pc == *p);
                    let j = choose|j: int| 0 <= j < s.len() && s[j] == pc;
                    assert(t[j] == s[j]);
                    assert(t[j].id == c.parent_id.unwrap() && t[j].user_id == c.user_id);
                },
                None => {},
            }
        }
    }
    assert forall|i: int, j: int| 0 <= i < t.len() && 0 <= j < i implies (#[trigger] t[i]).id != (
    #[trigger] t[j]).id by {
        if i < s.len() {
            assert(t[i] == s[i] && t[j] == s[j]);
        } else {
            assert(t[i] == c && t[j] == s[j]);
        }
    }
    assert forall|i: int, j: int| 0 <= i < t.len() && 0 <= j < i implies !((#[trigger] t[i]).user_id
        == (#[trigger] t[j]).user_id && t[i].parent_id == t[j].parent_id && t[i].name@
        == t[j].name@) by {
        if i < s.len() {
            assert(t[i] == s[i] && t[j] == s[j]);
        } else {
            assert(t[i] == c && t[j] == s[j]);
            if c.user_id == s[j].user_id && c.parent_id == s[j].parent_id && c.name@ == s[j].name@ {
                assert(has_key(s, user.id, parent_id_of(parent), c.name@));
            }
        }
    }
    assert forall|i: int| 0 <= i < t.len() implies (#[trigger] t[i]).name@
        == crate::text::trim_spec(t[i].name@) && t[i].name@.len() > 0 by {
        if i < s.len() {
            assert(t[i] == s[i]);
        } else {
            assert(t[i] == c);
        }
    }
}

/// Retrieves the category with the given id, or `None` if no such category
/// exists.
pub fn read(store: &CategoryStore, id: i32) -> (result: Option<Category>)
    ensures
        result == lookup(store@, id),
{
    let n = store.categories.len();
    let mut i: usize = 0;
    while i < n
        invariant
            n == store@.len(),
            i <= n,
            forall|k: int| 0 <= k < i ==> (#[trigger] store@[k]).id != id,
        decreases n - i,
    {
        if store.categories[i].id == id {
            let c = store.categories[i].clone();
            proof {
                lemma_lookup_found(store@, i as int, id);
            }
            return Some(c);
        }
        i = i + 1;
    }
    proof {
        lemma_lookup_absent(store@, id);
    }
    None
}

/// Deletes the category with the given id.
///
/// The foreign key restricts the delete while other categories still
/// reference the row as their parent: that is reported as `HasChildren`. A
/// delete that affects no row — the id does not exist — is reported as
/// `NotDeleted`, not as silent success. On success exactly the one row with
/// the given id is removed; on any failure the table is unchanged.
pub fn delete(store: &mut CategoryStore, id: i32) -> (result: Result<(), CategoryErrorKind>)
    requires
        old(store).wf(),
    ensures
        final(store).wf(),
        final(store).fresh_id() == old(store).fresh_id(),
        (match result {
            Ok(()) => {
                &&& has_id(old(store)@, id)
                &&& !has_child(old(store)@, id)
                &&& exists|i: int|
                    0 <= i < old(store)@.len() && (#[trigger] old(store)@[i]).id == id
                        && final(store)@ == old(store)@.remove(i)
            },
            Err(e) => {
                &&& *final(store) == *old(store)
                &&& (match e {
                    CategoryErrorKind::NotDeleted(d) => d == id && !has_id(old(store)@, id),
                    CategoryErrorKind::HasChildren(d) => d == id && has_id(old(store)@, id)
                        && has_child(old(store)@, id),
                    _ => false,
                })
            },
        }),
{
    // Locate the row the delete statement would affect.
    let n = store.categories.len();
    let mut found: Option<usize> = None;
    let mut i: usize = 0;
    while i < n
        invariant
            n == store@.len(),
            i <= n,
            found is None ==> forall|k: int| 0 <= k < i ==> (#[trigger] store@[k]).id != id,
            found matches Some(f) ==> f < n && store@[f as int].id == id,
        decreases n - i,
    {
        if found.is_none() && store.categories[i].id == id {
            found = Some(i);
        }
        i = i + 1;
    }
    match found {
        None => {
            // The delete affected zero rows.
            proof {
                assert(!has_id(store@, id));
            }
            delete_outcome(Ok(0), id)
        },
        Some(f) => {
            // The foreign key restricts the delete while children remain.
            let mut j: usize = 0;
            let mut child_found = false;
            while j < n
                invariant
                    n == store@.len(),
                    j <= n,
                    !child_found ==> forall|k: int|
                        0 <= k < j ==> (#[trigger] store@[k]).parent_id != Some(id),
                    child_found ==> has_child(store@, id),
                decreases n - j,
            {
                if opt_id_eq(store.categories[j].parent_id, Some(id)) {
                    child_found = true;
                }
                j = j + 1;
            }
            if child_found {
                proof {
                    assert(has_id(store@, id));
                }
                return delete_outcome(Err(StorageError::ForeignKeyViolation), id);
            }
            proof {
                assert(has_id(store@, id));
                assert(!has_child(store@, id));
                lemma_remove_preserves_wf(store@, f as int, id);
            }
            let _ = store.categories.remove(f);
            delete_outcome(Ok(1), id)
        },
    }
}

proof fn lemma_remove_preserves_wf(s: Seq<Category>, f: int, id: i32)
    requires
        table_wf(s),
        0 <= f < s.len(),
        s[f].id == id,
        !has_child(s, id),
    ensures
        table_wf(s.remove(f)),
{
    let t = s.remove(f);
    assert forall|i: int, j: int| 0 <= i < t.len() && 0 <= j < i implies (#[trigger] t[i]).id != (
    #[trigger] t[j]).id by {
        let i0 = if i < f { i } else { i + 1 };
        let j0 = if j < f { j } else { j + 1 };
        assert(t[i] == s[i0] && t[j] == s[j0]);
    }
    assert forall|i: int, j: int| 0 <= i < t.len() && 0 <= j < i implies !((#[trigger] t[i]).user_id
        == (#[trigger] t[j]).user_id && t[i].parent_id == t[j].parent_id && t[i].name@
        == t[j].name@) by {
        let i0 = if i < f { i } else { i + 1 };
        let j0 = if j < f { j } else { j + 1 };
        assert(t[i] == s[i0] && t[j] == s[j0]);
    }
    assert forall|i: int| 0 <= i < t.len() implies (#[trigger] t[i]).name@
        == crate::text::trim_spec(t[i].name@) && t[i].name@.len() > 0 by {
        let i0 = if i < f { i } else { i + 1 };
        assert(t[i] == s[i0]);
    }
    assert forall|i: int| 0 <= i < t.len() implies parent_link_ok(t, #[trigger] t[i]) by {
        let i0 = if i < f { i } else { i + 1 };
        assert(t[i] == s[i0]);
        assert(parent_link_ok(s, s[i0]));
        match t[i].parent_id {
            Some(p) => {
                assert(s[i0].parent_id != Some(id));
                let j = choose|j: int|
                    0 <= j < s.len() && (#[trigger] s[j]).id == p && s[j].user_id == s[i0].user_id;
                let j1 = if j < f {
                    j
                } else {
                    j - 1
                };
                assert(j != f);
                assert(t[j1] == s[j]);
            },
            None => {},
        }
    }
}

/// Law: a category read immediately after its creation is found, and is the
/// created row itself — inserting a row whose id is fresh makes a lookup of
/// that id return exactly that row.
pub proof fn lemma_lookup_after_insert(s: Seq<Category>, c: Category)
    requires
        !has_id(s, c.id),
    ensures
        lookup(s.push(c), c.id) == Some(c),
    decreases s.len(),
{
    let t = s.push(c);
    if s.len() == 0 {
        assert(t[0] == c);
    } else {
        assert(t[0] == s[0]);
        assert(s[0].id != c.id);
        let s1 = s.subrange(1, s.len() as int);
        assert(t.subrange(1, t.len() as int) =~= s1.push(c));
        assert forall|k: int| 0 <= k < s1.len() implies (#[trigger] s1[k]).id != c.id by {
            assert(s1[k] == s[k + 1]);
        }
        assert(!has_id(s1, c.id));
        lemma_lookup_after_insert(s1, c);
    }
}

/// Law: users' category forests are independent — a row created for one user
/// never occupies a name and parent for another user, so the same name can be
/// created as a root (or under structurally equal parents) for each user.
pub proof fn lemma_users_independent(
    s: Seq<Category>,
    c: Category,
    user_id: i32,
    parent_id: Option<i32>,
    name: Seq<char>,
)
    requires
        c.user_id != user_id,
        !has_key(s, user_id, parent_id, name),
    ensures
        !has_key(s.push(c), user_id, parent_id, name),
{
    let t = s.push(c);
    assert forall|i: int|
        0 <= i < t.len() implies !((#[trigger] t[i]).user_id == user_id && t[i].parent_id
        == parent_id && t[i].name@ == name) by {
        if i < s.len() {
            assert(t[i] == s[i]);
        } else {
            assert(t[i] == c);
        }
    }
}

/// Law: a category read after its deletion is gone — removing the one row
/// with a given id from a table with unique ids makes a lookup of that id
/// return nothing.
pub proof fn lemma_lookup_after_remove(s: Seq<Category>, f: int, id: i32)
    requires
        ids_unique(s),
        0 <= f < s.len(),
        s[f].id == id,
    ensures
        lookup(s.remove(f), id) is None,
{
    let t = s.remove(f);
    assert forall|k: int| 0 <= k < t.len() implies (#[trigger] t[k]).id != id by {
        let k0 = if k < f {
            k
        } else {
            k + 1
        };
        assert(t[k] == s[k0]);
    }
    lemma_lookup_absent(t, id);
}

} // verus!
