//! The weekly study quiz: the question bank, how a question is looked up in
//! it, and the answers sent for a quiz.

use vstd::prelude::*;
use crate::value::{Value, Json};
use crate::lookup::{member, at_path, json_u64, or_else};

verus! {

// ------------------------------------------------------------------
// Normalizing text
// ------------------------------------------------------------------

/// Whether a character has the Unicode `White_Space` property, as
/// `char::is_whitespace` documents it.
pub open spec fn is_white(c: char) -> bool {
    let u = c as u32;
    (0x09 <= u <= 0x0d) || u == 0x20 || u == 0x85 || u == 0xa0 || u == 0x1680 || (0x2000 <= u
        <= 0x200a) || u == 0x2028 || u == 0x2029 || u == 0x202f || u == 0x205f || u == 0x3000
}

pub fn is_whitespace(c: char) -> (r: bool)
    ensures
        r == is_white(c),
{
    let u = c as u32;
    (0x09 <= u && u <= 0x0d) || u == 0x20 || u == 0x85 || u == 0xa0 || u == 0x1680 || (0x2000 <= u
        && u <= 0x200a) || u == 0x2028 || u == 0x2029 || u == 0x202f || u == 0x205f || u == 0x3000
}

/// A text without its whitespace.
pub open spec fn without_white(s: Seq<char>) -> Seq<char>
    decreases s.len(),
{
    if s.len() == 0 {
        seq![]
    } else if is_white(s.last()) {
        without_white(s.drop_last())
    } else {
        without_white(s.drop_last()).push(s.last())
    }
}

/// The text that `str::to_lowercase` makes of a text (Unicode lower case).
pub uninterp spec fn lowercase_text(s: Seq<char>) -> Seq<char>;

/// Calls `str::to_lowercase`; its result is named.
#[verifier::external_body]
fn to_lowercase(s: &str) -> (r: String)
    ensures
        r@ == lowercase_text(s@),
{
    s.to_lowercase()
}

/// A question as the bank keys it: whitespace dropped, then lower case.
pub open spec fn normalized(s: Seq<char>) -> Seq<char> {
    lowercase_text(without_white(s))
}

/// Normalizes a question for lookup.
pub fn normalize_text(s: &str) -> (r: String)
    ensures
        r@ == normalized(s@),
{
    let n = s.unicode_len();
    let mut kept = String::new();
    let mut i: usize = 0;
    assert(s@.take(0) =~= Seq::<char>::empty());
    while i < n
        invariant
            n == s@.len(),
            i <= n,
            kept@ == without_white(s@.take(i as int)),
        decreases n - i,
    {
        let c = s.get_char(i);
        let ghost prev = kept@;
        proof {
            assert(s@.take(i + 1).drop_last() =~= s@.take(i as int));
            assert(s@.take(i + 1).last() == c);
        }
        if !is_whitespace(c) {
            let piece = s.substring_char(i, i + 1);
            assert(piece@ =~= seq![c]);
            kept.append(piece);
            assert(kept@ =~= prev.push(c));
        }
        i = i + 1;
    }
    assert(s@.take(n as int) =~= s@);
    to_lowercase(kept.as_str())
}

// ------------------------------------------------------------------
// The question bank
// ------------------------------------------------------------------

/// Whether `needle`'s bytes occur in `hay`'s.
pub open spec fn contains_bytes(hay: Seq<u8>, needle: Seq<u8>) -> bool {
    exists|i: int| 0 <= i <= hay.len() - needle.len() && #[trigger] hay.subrange(i, i + needle.len()) == needle
}

/// Whether one text occurs in another, as `str::contains` finds it.
pub open spec fn text_contains(hay: Seq<char>, needle: Seq<char>) -> bool {
    contains_bytes(vstd::utf8::encode_utf8(hay), vstd::utf8::encode_utf8(needle))
}

fn match_at(hay: &[u8], needle: &[u8], i: usize) -> (r: bool)
    requires
        i + needle@.len() <= hay@.len(),
    ensures
        r == (hay@.subrange(i as int, i + needle@.len()) == needle@),
{
    let hn = hay.len();
    let mut j: usize = 0;
    while j < needle.len()
        invariant
            hn == hay@.len(),
            i + needle@.len() <= hay@.len(),
            j <= needle@.len(),
            forall|q: int| 0 <= q < j ==> hay@[i + q] == #[trigger] needle@[q],
        decreases needle@.len() - j,
    {
        if hay[i + j] != needle[j] {
            assert(hay@.subrange(i as int, i + needle@.len())[j as int] != needle@[j as int]);
            return false;
        }
        j = j + 1;
    }
    assert(hay@.subrange(i as int, i + needle@.len()) =~= needle@);
    true
}

pub(crate) fn bytes_contain(hay: &[u8], needle: &[u8]) -> (r: bool)
    ensures
        r == contains_bytes(hay@, needle@),
{
    if needle.len() > hay.len() {
        return false;
    }
    let last = hay.len() - needle.len();
    let mut i: usize = 0;
    loop
        invariant
            last == hay@.len() - needle@.len(),
            i <= last,
            forall|k: int| 0 <= k < i ==> #[trigger] hay@.subrange(k, k + needle@.len()) != needle@,
        decreases last - i,
    {
        if match_at(hay, needle, i) {
            return true;
        }
        if i == last {
            assert forall|k: int| 0 <= k <= hay@.len() - needle@.len() implies #[trigger] hay@.subrange(
                k,
                k + needle@.len(),
            ) != needle@ by {}
            return false;
        }
        i = i + 1;
    }
}

/// Questions and their answers: each normalized question once.
pub struct AnswerBank {
    entries: Vec<(String, u32)>,
}

/// The entries of a bank: normalized question and answer.
pub type BankView = Seq<(Seq<char>, u32)>;

/// The position of a question in the bank, or -1.
pub open spec fn find_question(b: BankView, q: Seq<char>) -> int
    decreases b.len(),
{
    if b.len() == 0 {
        -1
    } else if b.last().0 == q {
        b.len() - 1
    } else {
        find_question(b.drop_last(), q)
    }
}

/// A bank with an item added: items without a question or with answer 0
/// are skipped; a question already in the bank gets the new answer.
pub open spec fn bank_add(b: BankView, name: Seq<char>, value: u32) -> BankView {
    if name.len() == 0 || value == 0 {
        b
    } else {
        let k = normalized(name);
        let i = find_question(b, k);
        if i >= 0 {
            b.update(i, (k, value))
        } else {
            b.push((k, value))
        }
    }
}

/// The bank built from items in order.
pub open spec fn bank_of(items: Seq<(Seq<char>, u32)>) -> BankView
    decreases items.len(),
{
    if items.len() == 0 {
        seq![]
    } else {
        bank_add(bank_of(items.drop_last()), items.last().0, items.last().1)
    }
}

/// The answer of the first question (in bank order) that contains the
/// cleaned question or is contained in it.
pub open spec fn partial_answer(b: BankView, clean: Seq<char>) -> Option<u32>
    decreases b.len(),
{
    if b.len() == 0 {
        None
    } else {
        match partial_answer(b.drop_last(), clean) {
            Some(v) => Some(v),
            None => if text_contains(clean, b.last().0) || text_contains(b.last().0, clean) {
                Some(b.last().1)
            } else {
                None
            },
        }
    }
}

/// The answer to a question: 1 for a question that is empty once
/// normalized; else the answer of the same question; else of the first
/// question that contains it or that it contains; else 1.
pub open spec fn answer_for(b: BankView, question: Seq<char>) -> u32 {
    let clean = normalized(question);
    if clean.len() == 0 {
        1
    } else if find_question(b, clean) >= 0 {
        b[find_question(b, clean)].1
    } else {
        match partial_answer(b, clean) {
            Some(v) => v,
            None => 1,
        }
    }
}

pub open spec fn items_view(items: Seq<(String, u32)>) -> Seq<(Seq<char>, u32)> {
    items.map_values(|x: (String, u32)| (x.0@, x.1))
}

/// Whether no question occurs twice in a bank.
pub open spec fn distinct_questions(b: BankView) -> bool {
    forall|i: int, j: int| 0 <= i < j < b.len() ==> #[trigger] b[i].0 != #[trigger] b[j].0
}

proof fn lemma_find_absent(b: BankView, q: Seq<char>)
    requires
        find_question(b, q) == -1,
    ensures
        forall|i: int| 0 <= i < b.len() ==> #[trigger] b[i].0 != q,
    decreases b.len(),
{
    if b.len() > 0 {
        lemma_find_absent(b.drop_last(), q);
        assert forall|i: int| 0 <= i < b.len() implies #[trigger] b[i].0 != q by {
            if i < b.len() - 1 {
                assert(b[i] == b.drop_last()[i]);
            }
        }
    }
}

/// A question stored in a bank whose questions are distinct is answered
/// with its stored answer.
pub proof fn law_stored_answer(b: BankView, question: Seq<char>, i: int)
    requires
        distinct_questions(b),
        0 <= i < b.len(),
        b[i].0 == normalized(question),
        normalized(question).len() > 0,
    ensures
        answer_for(b, question) == b[i].1,
{
    let q = normalized(question);
    lemma_find_question(b, q);
    if find_question(b, q) == -1 {
        lemma_find_absent(b, q);
        assert(b[i].0 != q);
    } else {
        let k = find_question(b, q);
        if k != i {
            if k < i {
                assert(b[k].0 != b[i].0);
            } else {
                assert(b[i].0 != b[k].0);
            }
        }
    }
}

proof fn lemma_find_question(b: BankView, q: Seq<char>)
    ensures
        -1 <= find_question(b, q) < b.len(),
        find_question(b, q) >= 0 ==> b[find_question(b, q)].0 == q,
    decreases b.len(),
{
    if b.len() > 0 {
        lemma_find_question(b.drop_last(), q);
    }
}

impl AnswerBank {
    /// Every answer in the bank is at least 1.
    #[verifier::type_invariant]
    spec fn answers_positive(self) -> bool {
        &&& forall|i: int| 0 <= i < self.entries@.len() ==> #[trigger] self.entries@[i].1 >= 1
        &&& distinct_questions(items_view(self.entries@))
    }

    /// The bank's entries.
    pub closed spec fn view_entries(&self) -> BankView {
        items_view(self.entries@)
    }

    /// An empty bank.
    pub fn new() -> (r: Self)
        ensures
            r.view_entries() == Seq::<(Seq<char>, u32)>::empty(),
    {
        let r = AnswerBank { entries: Vec::new() };
        assert(r.view_entries() =~= Seq::<(Seq<char>, u32)>::empty());
        r
    }

    fn index_of(&self, q: &str) -> (r: Option<usize>)
        ensures
            match r {
                Some(i) => find_question(self.view_entries(), q@) == i as int,
                None => find_question(self.view_entries(), q@) == -1,
            },
    {
        let ghost bv = self.view_entries();
        let mut j: usize = self.entries.len();
        assert(bv.take(j as int) =~= bv);
        while j > 0
            invariant
                j <= self.entries@.len(),
                bv == self.view_entries(),
                bv.len() == self.entries@.len(),
                find_question(bv, q@) == find_question(bv.take(j as int), q@),
            decreases j,
        {
            proof {
                assert(bv.take(j as int).last() == bv[j - 1]);
                assert(bv.take(j as int).drop_last() =~= bv.take(j - 1));
            }
            if crate::protocol::str_eq(self.entries[j - 1].0.as_str(), q) {
                return Some(j - 1);
            }
            j = j - 1;
        }
        None
    }

    /// Adds a question and its answer, as the bank is built.
    pub fn add(&mut self, name: &str, value: u32)
        ensures
            final(self).view_entries() == bank_add(old(self).view_entries(), name@, value),
    {
        proof {
            use_type_invariant(&*self);
        }
        if name.unicode_len() == 0 || value == 0 {
            return;
        }
        let key = normalize_text(name);
        let found = self.index_of(key.as_str());
        let ghost before = self.entries@;
        let mut es: Vec<(String, u32)> = Vec::new();
        std::mem::swap(&mut es, &mut self.entries);
        assert(es@ == before);
        match found {
            Some(i) => {
                proof {
                    lemma_find_question(items_view(before), key@);
                }
                es.set(i, (key, value));
                assert(items_view(es@) =~= items_view(before).update(i as int, (normalized(name@), value)));
                assert(distinct_questions(items_view(es@))) by {
                    let b0 = items_view(before);
                    let b1 = items_view(es@);
                    assert forall|x: int, y: int| 0 <= x < y < b1.len() implies #[trigger] b1[x].0 != #[trigger] b1[y].0 by {
                        assert(b0[x].0 != b0[y].0);
                    }
                }
            },
            None => {
                proof {
                    lemma_find_absent(items_view(before), key@);
                }
                es.push((key, value));
                assert(items_view(es@) =~= items_view(before).push((normalized(name@), value)));
                assert(distinct_questions(items_view(es@))) by {
                    let b0 = items_view(before);
                    let b1 = items_view(es@);
                    assert forall|x: int, y: int| 0 <= x < y < b1.len() implies #[trigger] b1[x].0 != #[trigger] b1[y].0 by {
                        if y < b0.len() {
                            assert(b0[x].0 != b0[y].0);
                        } else {
                            assert(b1[x].0 == b0[x].0);
                        }
                    }
                }
            },
        }
        assert(forall|k: int| 0 <= k < es@.len() ==> #[trigger] es@[k].1 >= 1);
        self.entries = es;
    }

    /// A bank built from question items in order.
    pub fn from_items(items: &Vec<(String, u32)>) -> (r: Self)
        ensures
            r.view_entries() == bank_of(items_view(items@)),
    {
        let mut bank = AnswerBank::new();
        let ghost iv = items_view(items@);
        let mut i: usize = 0;
        while i < items.len()
            invariant
                i <= items@.len(),
                iv == items_view(items@),
                iv.len() == items@.len(),
                bank.view_entries() == bank_of(iv.take(i as int)),
            decreases items@.len() - i,
        {
            proof {
                assert(iv.take(i + 1).drop_last() =~= iv.take(i as int));
                assert(iv.take(i + 1).last() == (items@[i as int].0@, items@[i as int].1));
            }
            bank.add(items[i].0.as_str(), items[i].1);
            i = i + 1;
        }
        assert(iv.take(iv.len() as int) =~= iv);
        bank
    }

    /// Replaces the bank with one built from new items, as loading an outside
    /// question file does: when the items make an empty bank, the bank is
    /// left as it was and the load is refused; else the new bank's size is
    /// returned.
    pub fn load_items(&mut self, items: &Vec<(String, u32)>) -> (r: Result<usize, String>)
        ensures
            bank_of(items_view(items@)).len() == 0 ==> (r matches Err(e) && e@
                == "External answer.json is empty or invalid"@) && final(self).view_entries()
                == old(self).view_entries(),
            bank_of(items_view(items@)).len() > 0 ==> r == Ok::<usize, String>(
                bank_of(items_view(items@)).len() as usize,
            ) && final(self).view_entries() == bank_of(items_view(items@)),
    {
        let fresh = AnswerBank::from_items(items);
        let n = fresh.question_count();
        if n == 0 {
            return Err(String::from_str("External answer.json is empty or invalid"));
        }
        *self = fresh;
        Ok(n)
    }

    /// How many questions the bank holds.
    pub fn question_count(&self) -> (r: usize)
        ensures
            r == self.view_entries().len(),
    {
        self.entries.len()
    }

    /// The answer to a question; never below 1, and the stored answer when
    /// the bank holds the cleaned question.
    pub fn find_answer(&self, question: &str) -> (r: u32)
        ensures
            r == answer_for(self.view_entries(), question@),
            r >= 1,
            forall|i: int|
                0 <= i < self.view_entries().len() && #[trigger] self.view_entries()[i].0 == normalized(question@)
                    && normalized(question@).len() > 0 ==> r == self.view_entries()[i].1,
    {
        proof {
            use_type_invariant(self);
            assert forall|i: int|
                0 <= i < self.view_entries().len() && #[trigger] self.view_entries()[i].0 == normalized(question@)
                    && normalized(question@).len() > 0 implies answer_for(self.view_entries(), question@)
                == self.view_entries()[i].1 by {
                law_stored_answer(self.view_entries(), question@, i);
            }
        }
        let clean = normalize_text(question);
        if clean.as_str().unicode_len() == 0 {
            return 1;
        }
        match self.index_of(clean.as_str()) {
            Some(i) => {
                proof {
                    lemma_find_question(self.view_entries(), clean@);
                }
                return self.entries[i].1;
            },
            None => {},
        }
        let ghost bv = self.view_entries();
        proof {
            lemma_find_question(bv, clean@);
            lemma_find_absent(bv, clean@);
        }
        let c = clean.as_str().as_bytes();
        let mut i: usize = 0;
        while i < self.entries.len()
            invariant
                i <= self.entries@.len(),
                bv == self.view_entries(),
                bv.len() == self.entries@.len(),
                c@ == vstd::utf8::encode_utf8(clean@),
                clean@.len() > 0,
                clean@ == normalized(question@),
                find_question(bv, clean@) == -1,
                forall|k: int| 0 <= k < bv.len() ==> #[trigger] bv[k].0 != clean@,
                partial_answer(bv.take(i as int), clean@) is None,
                forall|k: int| 0 <= k < self.entries@.len() ==> #[trigger] self.entries@[k].1 >= 1,
            decreases self.entries@.len() - i,
        {
            let k = self.entries[i].0.as_str().as_bytes();
            proof {
                assert(bv.take(i + 1).drop_last() =~= bv.take(i as int));
                assert(bv.take(i + 1).last() == bv[i as int]);
            }
            if bytes_contain(c, k) || bytes_contain(k, c) {
                proof {
                    assert(bv[i as int].0 == self.entries@[i as int].0@);
                    assert(text_contains(clean@, bv[i as int].0) || text_contains(bv[i as int].0, clean@));
                    lemma_partial_prefix(bv, clean@, i + 1);
                }
                return self.entries[i].1;
            }
            i = i + 1;
        }
        assert(bv.take(bv.len() as int) =~= bv);
        1
    }
}

proof fn lemma_partial_prefix(b: BankView, clean: Seq<char>, n: int)
    requires
        0 <= n <= b.len(),
    ensures
        partial_answer(b.take(n), clean) is Some ==> partial_answer(b, clean) == partial_answer(
            b.take(n),
            clean,
        ),
    decreases b.len() - n,
{
    if n < b.len() {
        assert(b.take(n + 1).drop_last() =~= b.take(n));
        lemma_partial_prefix(b, clean, n + 1);
    } else {
        assert(b.take(n) =~= b);
    }
}

// ------------------------------------------------------------------
// A quiz
// ------------------------------------------------------------------

/// The question list of a quiz answer: `questionList`, else
/// `role.study.questionList`, when it is an array.
pub open spec fn quiz_questions(resp: Json) -> Option<Seq<Json>> {
    match or_else(
        at_path(resp, seq!["questionList"@]),
        at_path(resp, seq!["role"@, "study"@, "questionList"@]),
    ) {
        Some(Json::Array(items)) => Some(items),
        _ => None,
    }
}

/// The quiz id: `role.study.id`, else `studyId`, as a `u64`.
pub open spec fn quiz_id(resp: Json) -> Option<u64> {
    json_u64(or_else(at_path(resp, seq!["role"@, "study"@, "id"@]), at_path(resp, seq!["studyId"@])))
}

/// The answer sent for one question: its id (0 when missing) and the bank's
/// answer to its text (empty when missing).
pub open spec fn question_answer(b: BankView, q: Json) -> (u64, u32) {
    let text = match member(q, "question"@) {
        Some(Json::Str(t)) => t,
        _ => seq![],
    };
    (
        match json_u64(member(q, "id"@)) {
            Some(id) => id,
            None => 0,
        },
        answer_for(b, text),
    )
}

pub open spec fn quiz_answers(b: BankView, qs: Seq<Json>) -> Seq<(u64, u32)>
    decreases qs.len(),
{
    if qs.len() == 0 {
        seq![]
    } else {
        quiz_answers(b, qs.drop_last()).push(question_answer(b, qs.last()))
    }
}

/// The quiz id and the answer to send for each question, in order; an
/// error when the answer to starting the quiz lacks either.
pub fn study_answers(resp: &Value, bank: &AnswerBank) -> (r: Result<(u64, Vec<(u64, u32)>), String>)
    ensures
        match (quiz_questions(resp@), quiz_id(resp@)) {
            (Some(qs), Some(id)) => r matches Ok((rid, v)) && rid == id && v@ == quiz_answers(
                bank.view_entries(),
                qs,
            ),
            _ => r matches Err(e) && e@ == "Missing questionList or studyId in study_startgame response"@,
        },
{
    proof {
        reveal_with_fuel(at_path, 4);
        assert(seq!["questionList"@].drop_last() =~= Seq::<Seq<char>>::empty());
        assert(seq!["role"@, "study"@, "questionList"@].drop_last() =~= seq!["role"@, "study"@]);
        assert(seq!["role"@, "study"@, "id"@].drop_last() =~= seq!["role"@, "study"@]);
        assert(seq!["role"@, "study"@].drop_last() =~= seq!["role"@]);
        assert(seq!["role"@].drop_last() =~= Seq::<Seq<char>>::empty());
        assert(seq!["studyId"@].drop_last() =~= Seq::<Seq<char>>::empty());
    }
    let study = crate::lookup::get_opt(crate::lookup::get_member(resp, "role"), "study");
    let list = match crate::lookup::get_member(resp, "questionList") {
        Some(x) => Some(x),
        None => crate::lookup::get_opt(study, "questionList"),
    };
    let id_value = match crate::lookup::get_opt(study, "id") {
        Some(x) => Some(x),
        None => crate::lookup::get_member(resp, "studyId"),
    };
    let id = crate::lookup::as_u64(id_value);
    let (items, id) = match (list, id) {
        (Some(Value::Array(items)), Some(id)) => (items, id),
        _ => {
            return Err(String::from_str("Missing questionList or studyId in study_startgame response"));
        },
    };
    let ghost qs = crate::value::model_items(items@);
    proof {
        crate::value::lemma_model_items_len(items@);
    }
    let mut out: Vec<(u64, u32)> = Vec::new();
    let mut i: usize = 0;
    while i < items.len()
        invariant
            i <= items@.len(),
            qs == crate::value::model_items(items@),
            qs.len() == items@.len(),
            forall|k: int| 0 <= k < items@.len() ==> #[trigger] qs[k] == items@[k]@,
            out@ == quiz_answers(bank.view_entries(), qs.take(i as int)),
        decreases items@.len() - i,
    {
        proof {
            assert(qs.take(i + 1).drop_last() =~= qs.take(i as int));
            assert(qs.take(i + 1).last() == items@[i as int]@);
        }
        let q = &items[i];
        let text: &str = match crate::lookup::get_member(q, "question") {
            Some(Value::Str(t)) => t.as_str(),
            _ => "",
        };
        proof {
            reveal_strlit("");
        }
        let qid = match crate::lookup::as_u64(crate::lookup::get_member(q, "id")) {
            Some(v) => v,
            None => 0,
        };
        let answer = bank.find_answer(text);
        out.push((qid, answer));
        i = i + 1;
    }
    assert(qs.take(qs.len() as int) =~= qs);
    Ok((id, out))
}

// ------------------------------------------------------------------
// The weekly quiz
// ------------------------------------------------------------------

/// The current local ISO week as a span of unix seconds, `[start, end)`,
/// from Monday's midnight to the next: a time falls in the current week
/// exactly when it lies in the span.
#[derive(Clone, Copy)]
pub struct WeekWindow {
    pub start: i64,
    pub end: i64,
}

/// Whether a time falls in the current week.
pub fn is_in_current_week(timestamp_secs: i64, week: WeekWindow) -> (r: bool)
    ensures
        r == (week.start <= timestamp_secs < week.end),
{
    week.start <= timestamp_secs && timestamp_secs < week.end
}

/// The quiz record in a role's data, under `role/study` or `study`.
pub open spec fn study_record(j: Json) -> Option<Json> {
    crate::lookup::or_else(
        crate::lookup::at_path(j, seq!["role"@, "study"@]),
        crate::lookup::member(j, "study"@),
    )
}

/// A number of the quiz record (0 when it has none).
pub open spec fn study_number(s: Json, k: Seq<char>) -> i64 {
    match crate::lookup::json_i64(crate::lookup::member(s, k)) {
        Some(v) => v,
        None => 0,
    }
}

/// Whether this week's quiz is done: the role's best score is at least 10
/// and the quiz began this week.
pub open spec fn study_done(j: Option<Json>, week: WeekWindow) -> bool {
    match j {
        Some(v) => match study_record(v) {
            Some(s) => study_number(s, "maxCorrectNum"@) >= 10 && week.start <= study_number(s, "beginTime"@)
                < week.end,
            None => false,
        },
        None => false,
    }
}

/// Whether this week's quiz is done, from the role's data.
pub fn is_study_completed_this_week(role_info: Option<&Value>, week: WeekWindow) -> (r: bool)
    ensures
        r == study_done(
            match role_info {
                Some(v) => Some(v@),
                None => None,
            },
            week,
        ),
{
    let info = match role_info {
        Some(v) => v,
        None => {
            return false;
        },
    };
    proof {
        reveal_with_fuel(crate::lookup::at_path, 3);
        assert(seq!["role"@, "study"@].drop_last() =~= seq!["role"@]);
        assert(seq!["role"@].drop_last() =~= Seq::<Seq<char>>::empty());
    }
    let study = match crate::lookup::get_opt(crate::lookup::get_member(info, "role"), "study") {
        Some(s) => s,
        None => match crate::lookup::get_member(info, "study") {
            Some(s) => s,
            None => {
                return false;
            },
        },
    };
    let max_correct = match crate::lookup::as_i64(crate::lookup::get_member(study, "maxCorrectNum")) {
        Some(v) => v,
        None => 0,
    };
    let begin_time = match crate::lookup::as_i64(crate::lookup::get_member(study, "beginTime")) {
        Some(v) => v,
        None => 0,
    };
    max_correct >= 10 && is_in_current_week(begin_time, week)
}

} // verus!
