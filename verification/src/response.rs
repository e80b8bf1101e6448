//! The timetable that the NIKA site publishes, as ordered key/value lists.
//!
//! Every map of the published data is held as a list of entries in ascending key order, the
//! order in which the site's data is walked; lookups return the first entry with the key.

use vstd::prelude::*;
use crate::text::{
    lemma_text_le_antisymmetric, lemma_text_le_transitive, text_le, text_less_or_equal,
};

verus! {

/// An entry of a list that is looked up by a string key.
pub trait Keyed {
    spec fn key_view(&self) -> Seq<char>;

    fn key(&self) -> (k: &String)
        ensures
            k@ == self.key_view(),
    ;
}

/// An identifier and the name or value that it stands for.
#[derive(Clone, Debug)]
pub struct Pair {
    pub key: String,
    pub value: String,
}

/// The times of one lesson number: `times[0]` is its start, `times[1]` its end.
#[derive(Clone, Debug)]
pub struct LessonTimes {
    pub lesson: String,
    pub times: Vec<String>,
}

/// A teaching period; `begins` is its first day as `dd.mm.yyyy`.
#[derive(Clone, Debug)]
pub struct Period {
    pub key: String,
    pub begins: String,
}

/// One lesson slot of a class. The three lists run over the class's groups: group `g` has
/// subject `subjects[g]`, room `rooms[g]` and teacher `teachers[g]`; an empty identifier
/// means that the group has no lesson then.
#[derive(Clone, Debug)]
pub struct ClassLesson {
    pub lesson_id: String,
    pub subjects: Vec<String>,
    pub rooms: Vec<String>,
    pub teachers: Vec<String>,
}

/// The week of one class, lesson slots in ascending order of their identifiers.
#[derive(Clone, Debug)]
pub struct ClassWeek {
    pub class_id: String,
    pub lessons: Vec<ClassLesson>,
}

/// The class timetables published under one key.
#[derive(Clone, Debug)]
pub struct ClassTimetable {
    pub key: String,
    pub classes: Vec<ClassWeek>,
}

/// One lesson slot of a teacher: the subject, and the room and classes where known.
#[derive(Clone, Debug)]
pub struct TeacherLesson {
    pub lesson_id: String,
    pub subject: String,
    pub room: Option<String>,
    pub classes: Option<Vec<String>>,
}

/// The week of one teacher, lesson slots in ascending order of their identifiers.
#[derive(Clone, Debug)]
pub struct TeacherWeek {
    pub teacher_id: String,
    pub lessons: Vec<TeacherLesson>,
}

/// The teacher timetables published under one key.
#[derive(Clone, Debug)]
pub struct TeacherTimetable {
    pub key: String,
    pub teachers: Vec<TeacherWeek>,
}

/// The whole published timetable.
#[derive(Clone, Debug)]
pub struct NikaResponse {
    /// Class identifier to class name.
    pub classes: Vec<Pair>,
    /// Class identifier to the course (grade) that the class belongs to.
    pub class_courses: Vec<Pair>,
    /// Teacher identifier to teacher name.
    pub teachers: Vec<Pair>,
    /// Room identifier to room name.
    pub rooms: Vec<Pair>,
    /// Subject identifier to subject name.
    pub subjects: Vec<Pair>,
    /// Lesson number to its start and end times.
    pub lesson_times: Vec<LessonTimes>,
    /// Names of the days of the week; day `d` (from 1) is `day_names[d - 1]`.
    pub day_names: Vec<String>,
    pub periods: Vec<Period>,
    pub class_schedule: Vec<ClassTimetable>,
    pub teach_schedule: Vec<TeacherTimetable>,
}

impl Keyed for Pair {
    open spec fn key_view(&self) -> Seq<char> {
        self.key@
    }

    fn key(&self) -> (k: &String) {
        &self.key
    }
}

impl Keyed for LessonTimes {
    open spec fn key_view(&self) -> Seq<char> {
        self.lesson@
    }

    fn key(&self) -> (k: &String) {
        &self.lesson
    }
}

impl Keyed for ClassWeek {
    open spec fn key_view(&self) -> Seq<char> {
        self.class_id@
    }

    fn key(&self) -> (k: &String) {
        &self.class_id
    }
}

impl Keyed for TeacherWeek {
    open spec fn key_view(&self) -> Seq<char> {
        self.teacher_id@
    }

    fn key(&self) -> (k: &String) {
        &self.teacher_id
    }
}

/// Index of the first entry of `entries` from `from` on whose key is `key`.
pub open spec fn find_from<T: Keyed>(entries: Seq<T>, key: Seq<char>, from: int) -> Option<int>
    decreases entries.len() - from,
{
    if from < 0 || from >= entries.len() {
        None
    } else if entries[from].key_view() == key {
        Some(from)
    } else {
        find_from(entries, key, from + 1)
    }
}

/// The first entry of `entries` whose key is `key`.
pub open spec fn lookup<T: Keyed>(entries: Seq<T>, key: Seq<char>) -> Option<T> {
    match find_from(entries, key, 0) {
        Some(i) => Some(entries[i]),
        None => None,
    }
}

/// The name that `pairs` gives to `key`.
pub open spec fn lookup_value(pairs: Seq<Pair>, key: Seq<char>) -> Option<Seq<char>> {
    match lookup(pairs, key) {
        Some(p) => Some(p.value@),
        None => None,
    }
}

/// Where `find_from` finds nothing before `i`, the search from `i` gives the same answer.
proof fn lemma_find_skip<T: Keyed>(entries: Seq<T>, key: Seq<char>, from: int, i: int)
    requires
        0 <= from <= i <= entries.len(),
        forall|j: int| from <= j < i ==> entries[j].key_view() != key,
    ensures
        find_from(entries, key, from) == find_from(entries, key, i),
    decreases i - from,
{
    if from < i {
        lemma_find_skip(entries, key, from + 1, i);
    }
}

/// The position of the first entry with key `key`, as `find_from(.., 0)` gives it.
pub fn find_entry<T: Keyed>(entries: &Vec<T>, key: &String) -> (r: Option<usize>)
    ensures
        r matches Some(i) ==> i < entries@.len() && find_from(entries@, key@, 0) == Some(i as int),
        r is None ==> find_from(entries@, key@, 0) is None,
{
    let mut i: usize = 0;
    while i < entries.len()
        invariant
            i <= entries@.len(),
            forall|j: int| 0 <= j < i ==> entries@[j].key_view() != key@,
        decreases entries@.len() - i,
    {
        let k = entries[i].key();
        if *k == *key {
            proof {
                lemma_find_skip(entries@, key@, 0, i as int);
            }
            return Some(i);
        }
        i = i + 1;
    }
    proof {
        lemma_find_skip(entries@, key@, 0, i as int);
    }
    None
}

/// The name that `pairs` gives to `key`, if any.
pub fn find_value<'a>(pairs: &'a Vec<Pair>, key: &String) -> (r: Option<&'a String>)
    ensures
        r matches Some(v) ==> lookup_value(pairs@, key@) == Some(v@),
        r is None ==> lookup_value(pairs@, key@) is None,
{
    match find_entry(pairs, key) {
        Some(i) => Some(&pairs[i].value),
        None => None,
    }
}

/// The keys of `entries` strictly ascend in the order of `String`, as those of a
/// `BTreeMap` walked in order do; no key occurs twice.
pub open spec fn keys_ascending<T: Keyed>(entries: Seq<T>) -> bool {
    forall|i: int, j: int|
        0 <= i < j < entries.len() ==> text_le(#[trigger] entries[i].key_view(), #[trigger] entries[j].key_view())
            && entries[i].key_view() != entries[j].key_view()
}

impl Keyed for ClassLesson {
    open spec fn key_view(&self) -> Seq<char> {
        self.lesson_id@
    }

    fn key(&self) -> (k: &String) {
        &self.lesson_id
    }
}

impl Keyed for TeacherLesson {
    open spec fn key_view(&self) -> Seq<char> {
        self.lesson_id@
    }

    fn key(&self) -> (k: &String) {
        &self.lesson_id
    }
}

impl Keyed for ClassTimetable {
    open spec fn key_view(&self) -> Seq<char> {
        self.key@
    }

    fn key(&self) -> (k: &String) {
        &self.key
    }
}

impl Keyed for TeacherTimetable {
    open spec fn key_view(&self) -> Seq<char> {
        self.key@
    }

    fn key(&self) -> (k: &String) {
        &self.key
    }
}

impl Keyed for Period {
    open spec fn key_view(&self) -> Seq<char> {
        self.key@
    }

    fn key(&self) -> (k: &String) {
        &self.key
    }
}

impl NikaResponse {
    /// Every map of the timetable lists its keys in strictly ascending order, the nested
    /// ones included (the lesson slots of each week too), as the `BTreeMap`s of the
    /// published data do.
    pub open spec fn wf(&self) -> bool {
        &&& keys_ascending(self.classes@)
        &&& keys_ascending(self.class_courses@)
        &&& keys_ascending(self.teachers@)
        &&& keys_ascending(self.rooms@)
        &&& keys_ascending(self.subjects@)
        &&& keys_ascending(self.lesson_times@)
        &&& keys_ascending(self.periods@)
        &&& keys_ascending(self.class_schedule@)
        &&& keys_ascending(self.teach_schedule@)
        &&& forall|i: int| 0 <= i < self.class_schedule@.len() ==> class_weeks_ascending(#[trigger] self.class_schedule@[i])
        &&& forall|i: int| 0 <= i < self.teach_schedule@.len() ==> teacher_weeks_ascending(#[trigger] self.teach_schedule@[i])
    }

    /// Whether the keys of every map of the timetable ascend, as `wf` asks.
    pub fn is_well_formed(&self) -> (r: bool)
        ensures
            r == self.wf(),
    {
        if !(has_ascending_keys(&self.classes) && has_ascending_keys(&self.class_courses)
            && has_ascending_keys(&self.teachers) && has_ascending_keys(&self.rooms)
            && has_ascending_keys(&self.subjects) && has_ascending_keys(&self.lesson_times)
            && has_ascending_keys(&self.periods) && has_ascending_keys(&self.class_schedule)
            && has_ascending_keys(&self.teach_schedule)) {
            return false;
        }
        let mut i: usize = 0;
        while i < self.class_schedule.len()
            invariant
                i <= self.class_schedule@.len(),
                forall|j: int| 0 <= j < i ==> class_weeks_ascending(#[trigger] self.class_schedule@[j]),
            decreases self.class_schedule@.len() - i,
        {
            if !class_timetable_ascends(&self.class_schedule[i]) {
                return false;
            }
            i = i + 1;
        }
        let mut i: usize = 0;
        while i < self.teach_schedule.len()
            invariant
                i <= self.teach_schedule@.len(),
                forall|j: int| 0 <= j < i ==> teacher_weeks_ascending(#[trigger] self.teach_schedule@[j]),
            decreases self.teach_schedule@.len() - i,
        {
            if !teacher_timetable_ascends(&self.teach_schedule[i]) {
                return false;
            }
            i = i + 1;
        }
        true
    }
}

/// The classes of a timetable, and the lesson slots of each class, ascend by key.
pub open spec fn class_weeks_ascending(t: ClassTimetable) -> bool {
    &&& keys_ascending(t.classes@)
    &&& forall|j: int| 0 <= j < t.classes@.len() ==> keys_ascending(#[trigger] t.classes@[j].lessons@)
}

/// The teachers of a timetable, and the lesson slots of each teacher, ascend by key.
pub open spec fn teacher_weeks_ascending(t: TeacherTimetable) -> bool {
    &&& keys_ascending(t.teachers@)
    &&& forall|j: int| 0 <= j < t.teachers@.len() ==> keys_ascending(#[trigger] t.teachers@[j].lessons@)
}

fn class_timetable_ascends(t: &ClassTimetable) -> (r: bool)
    ensures
        r == class_weeks_ascending(*t),
{
    if !has_ascending_keys(&t.classes) {
        return false;
    }
    let mut j: usize = 0;
    while j < t.classes.len()
        invariant
            j <= t.classes@.len(),
            forall|k: int| 0 <= k < j ==> keys_ascending(#[trigger] t.classes@[k].lessons@),
        decreases t.classes@.len() - j,
    {
        if !has_ascending_keys(&t.classes[j].lessons) {
            return false;
        }
        j = j + 1;
    }
    true
}

fn teacher_timetable_ascends(t: &TeacherTimetable) -> (r: bool)
    ensures
        r == teacher_weeks_ascending(*t),
{
    if !has_ascending_keys(&t.teachers) {
        return false;
    }
    let mut j: usize = 0;
    while j < t.teachers.len()
        invariant
            j <= t.teachers@.len(),
            forall|k: int| 0 <= k < j ==> keys_ascending(#[trigger] t.teachers@[k].lessons@),
        decreases t.teachers@.len() - j,
    {
        if !has_ascending_keys(&t.teachers[j].lessons) {
            return false;
        }
        j = j + 1;
    }
    true
}

/// Whether the keys of `entries` strictly ascend.
pub fn has_ascending_keys<T: Keyed>(entries: &Vec<T>) -> (r: bool)
    ensures
        r == keys_ascending(entries@),
{
    let mut i: usize = 1;
    if entries.len() == 0 {
        return true;
    }
    while i < entries.len()
        invariant
            1 <= i <= entries@.len(),
            keys_ascending(entries@.take(i as int)),
        decreases entries@.len() - i,
    {
        let prev = entries[i - 1].key();
        let next = entries[i].key();
        if !text_less_or_equal(prev, next) || *prev == *next {
            assert(!keys_ascending(entries@)) by {
                assert(entries@[i - 1].key_view() == prev@);
                assert(entries@[i as int].key_view() == next@);
            }
            return false;
        }
        proof {
            let s = entries@.take(i + 1);
            assert forall|a: int, b: int| 0 <= a < b < s.len() implies text_le(#[trigger] s[a].key_view(), #[trigger] s[b].key_view())
                && s[a].key_view() != s[b].key_view() by {
                if b < i {
                    assert(s[a] == entries@.take(i as int)[a] && s[b] == entries@.take(i as int)[b]);
                } else if a == i - 1 {
                } else {
                    let x = s[a].key_view();
                    let y = prev@;
                    let z = next@;
                    assert(s[a] == entries@.take(i as int)[a]);
                    assert(entries@.take(i as int)[i - 1].key_view() == y);
                    assert(text_le(x, y) && x != y);
                    lemma_text_le_transitive(x, y, z, 0);
                    if x == z {
                        assert(x.take(0) =~= y.take(0));
                        lemma_text_le_antisymmetric(x, y, 0);
                    }
                }
            }
        }
        i = i + 1;
    }
    assert(entries@.take(i as int) =~= entries@);
    true
}

/// In a list whose keys ascend, looking up the key of an entry finds that entry.
pub proof fn lookup_finds_each_entry<T: Keyed>(entries: Seq<T>, i: int)
    requires
        keys_ascending(entries),
        0 <= i < entries.len(),
    ensures
        lookup(entries, entries[i].key_view()) == Some(entries[i]),
{
    let key = entries[i].key_view();
    assert forall|j: int| 0 <= j < i implies entries[j].key_view() != key by {
        assert(text_le(entries[j].key_view(), entries[i].key_view()));
    }
    lemma_find_skip(entries, key, 0, i);
}

} // verus!
