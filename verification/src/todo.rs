//! The todo store: items, the line-oriented file format, and the queued
//! mutations that edit the list.

use vstd::prelude::*;
use vstd::string::StrSliceExecFns;
use vstd::string::StringExecFns;

verus! {

/// A single task record: a completion flag and a name.
#[derive(Clone, Debug, PartialEq, Eq)]
pub struct Todo {
    pub completed: bool,
    pub name: String,
}

/// The mathematical value of a `Todo`.
pub ghost struct TodoView {
    pub completed: bool,
    pub name: Seq<char>,
}

impl View for Todo {
    type V = TodoView;

    open spec fn view(&self) -> TodoView {
        TodoView { completed: self.completed, name: self.name@ }
    }
}

/// The flag character that begins a persisted line: `1` for a completed
/// item, `0` otherwise.
pub open spec fn flag_char(completed: bool) -> char {
    if completed {
        '1'
    } else {
        '0'
    }
}

/// The persisted form of one item: `<flag>;<name>`, without the trailing
/// newline.
pub open spec fn line_of(t: TodoView) -> Seq<char> {
    seq![flag_char(t.completed), ';'] + t.name
}

/// Index of the first occurrence of `c` in `s`, if any.
pub open spec fn find_char(s: Seq<char>, c: char) -> Option<int>
    decreases s.len(),
{
    if s.len() == 0 {
        None
    } else if s[0] == c {
        Some(0int)
    } else {
        match find_char(s.drop_first(), c) {
            Some(j) => Some(j + 1),
            None => None,
        }
    }
}

/// A found index is in range and holds the character searched for.
pub broadcast proof fn lemma_find_char_range(s: Seq<char>, c: char)
    ensures
        #[trigger] find_char(s, c) matches Some(j) ==> 0 <= j < s.len() && s[j] == c,
    decreases s.len(),
{
    if s.len() > 0 && s[0] != c {
        lemma_find_char_range(s.drop_first(), c);
    }
}

/// `find_char` returns exactly the first position that holds `c`.
pub proof fn lemma_find_char_at(s: Seq<char>, c: char, k: int)
    requires
        0 <= k < s.len(),
        s[k] == c,
        forall|j: int| 0 <= j < k ==> s[j] != c,
    ensures
        find_char(s, c) == Some(k),
    decreases k,
{
    if k > 0 {
        assert forall|j: int| 0 <= j < k - 1 implies s.drop_first()[j] != c by {
            assert(s.drop_first()[j] == s[j + 1]);
        }
        lemma_find_char_at(s.drop_first(), c, k - 1);
    }
}

/// Where `c` does not occur, `find_char` finds nothing.
pub proof fn lemma_find_char_none(s: Seq<char>, c: char)
    requires
        forall|j: int| 0 <= j < s.len() ==> s[j] != c,
    ensures
        find_char(s, c) is None,
    decreases s.len(),
{
    if s.len() > 0 {
        assert forall|j: int| 0 <= j < s.drop_first().len() implies s.drop_first()[j] != c by {
            assert(s.drop_first()[j] == s[j + 1]);
        }
        lemma_find_char_none(s.drop_first(), c);
    }
}

/// Scan `s` from position `from` for the first occurrence of `c`; the result
/// is an absolute index into `s`.
fn find_char_from(s: &str, from: usize, c: char) -> (r: Option<usize>)
    requires
        from <= s@.len(),
    ensures
        match r {
            Some(j) => from <= j < s@.len() && find_char(s@.skip(from as int), c) == Some(
                j - from,
            ),
            None => find_char(s@.skip(from as int), c) is None,
        },
{
    let n = s.unicode_len();
    let mut i: usize = from;
    while i < n
        invariant
            from <= i <= n,
            n == s@.len(),
            forall|j: int| from <= j < i ==> s@[j] != c,
        decreases n - i,
    {
        if s.get_char(i) == c {
            proof {
                let tail = s@.skip(from as int);
                assert(tail[i - from] == s@[i as int]);
                assert forall|j: int| 0 <= j < i - from implies tail[j] != c by {
                    assert(tail[j] == s@[j + from]);
                }
                lemma_find_char_at(tail, c, i - from);
            }
            return Some(i);
        }
        i += 1;
    }
    proof {
        let tail = s@.skip(from as int);
        assert forall|j: int| 0 <= j < tail.len() implies tail[j] != c by {
            assert(tail[j] == s@[j + from]);
        }
        lemma_find_char_none(tail, c);
    }
    None
}

/// Parsed value of one line, or `None` where the line is malformed: shorter
/// than three characters or without a `;`. The first character is read as the
/// completion flag (`1` means completed), and the name is everything after
/// the first `;`.
pub open spec fn parse_line_of(l: Seq<char>) -> Option<TodoView> {
    match find_char(l, ';') {
        Some(j) => if l.len() >= 3 {
            Some(TodoView { completed: l[0] == '1', name: l.subrange(j + 1, l.len() as int) })
        } else {
            None
        },
        None => None,
    }
}

impl Todo {
    pub fn new(completed: bool, name: String) -> (t: Todo)
        ensures
            t@ == (TodoView { completed, name: name@ }),
    {
        Todo { completed, name }
    }

    /// The line this item is persisted as.
    pub fn to_line(&self) -> (r: String)
        ensures
            r@ == line_of(self@),
    {
        let mut s = String::new();
        if self.completed {
            s.append("1");
        } else {
            s.append("0");
        }
        s.append(";");
        s.append(self.name.as_str());
        proof {
            reveal_strlit("1");
            reveal_strlit("0");
            reveal_strlit(";");
            assert(s@ =~= line_of(self@));
        }
        s
    }

    /// Parse one persisted line back into an item; `None` exactly on the
    /// malformed lines that `parse_line_of` rejects.
    pub fn parse_line(line: &str) -> (r: Option<Todo>)
        ensures
            match r {
                Some(t) => parse_line_of(line@) == Some(t@),
                None => parse_line_of(line@) is None,
            },
    {
        let n = line.unicode_len();
        match find_char_from(line, 0, ';') {
            None => {
                proof {
                    assert(line@.skip(0) =~= line@);
                }
                None
            },
            Some(j) => {
                proof {
                    assert(line@.skip(0) =~= line@);
                }
                if n < 3 {
                    None
                } else {
                    let completed = line.get_char(0) == '1';
                    let name = String::from_str(line.substring_char(j + 1, n));
                    Some(Todo { completed, name })
                }
            },
        }
    }
}

/// Parsed value of a whole backing file: lines separated by `\n`, each line
/// parsed by `parse_line_of`, a trailing newline allowed. `None` as soon as
/// one line is malformed.
pub open spec fn parse_content_of(c: Seq<char>) -> Option<Seq<TodoView>>
    decreases c.len(),
    via parse_content_of_decreases
{
    if c.len() == 0 {
        Some(Seq::empty())
    } else {
        match find_char(c, '\n') {
            Some(j) => match (parse_line_of(c.take(j)), parse_content_of(c.skip(j + 1))) {
                (Some(t), Some(rest)) => Some(seq![t] + rest),
                _ => None,
            },
            None => match parse_line_of(c) {
                Some(t) => Some(seq![t]),
                None => None,
            },
        }
    }
}

#[via_fn]
proof fn parse_content_of_decreases(c: Seq<char>) {
    lemma_find_char_range(c, '\n');
}

/// The in-memory todo list. Display order, insertion order and persisted
/// order are all the order of this vector.
pub struct Todos(pub Vec<Todo>);

/// A queued mutation: an intent captured by the input machine, applied to
/// the store once per processing cycle.
pub enum MutationRequest {
    Add(Todo),
    Update(usize, Todo),
    Remove(usize),
}

impl View for Todos {
    type V = Seq<TodoView>;

    open spec fn view(&self) -> Seq<TodoView> {
        self.0@.map_values(|t: Todo| t@)
    }
}

/// The persisted form of a whole list: each item's line followed by a
/// newline.
pub open spec fn render_of(items: Seq<TodoView>) -> Seq<char>
    decreases items.len(),
{
    if items.len() == 0 {
        Seq::empty()
    } else {
        line_of(items[0]) + seq!['\n'] + render_of(items.drop_first())
    }
}

/// `render_of` distributes over concatenation.
pub proof fn lemma_render_of_concat(a: Seq<TodoView>, b: Seq<TodoView>)
    ensures
        render_of(a + b) == render_of(a) + render_of(b),
    decreases a.len(),
{
    if a.len() == 0 {
        assert(a + b =~= b);
        assert(render_of(a) + render_of(b) =~= render_of(b));
    } else {
        assert((a + b).drop_first() =~= a.drop_first() + b);
        lemma_render_of_concat(a.drop_first(), b);
        assert(render_of(a + b) =~= render_of(a) + render_of(b));
    }
}

/// Whether a queued mutation carries an index the store can apply.
pub open spec fn mutation_valid(items: Seq<TodoView>, req: MutationRequest) -> bool {
    match req {
        MutationRequest::Add(_) => true,
        MutationRequest::Update(idx, _) => idx < items.len(),
        MutationRequest::Remove(idx) => items.len() == 0 || idx < items.len(),
    }
}

/// The list after one queued mutation: add appends, update replaces in
/// place, remove deletes the indexed item (and is a no-op on an empty list).
pub open spec fn apply_mutation_of(items: Seq<TodoView>, req: MutationRequest) -> Seq<TodoView> {
    match req {
        MutationRequest::Add(t) => items.push(t@),
        MutationRequest::Update(idx, t) => items.update(idx as int, t@),
        MutationRequest::Remove(idx) => if items.len() == 0 {
            items
        } else {
            items.remove(idx as int)
        },
    }
}

impl Todos {
    pub fn new() -> (r: Todos)
        ensures
            r@ == Seq::<TodoView>::empty(),
    {
        let r = Todos(Vec::new());
        proof {
            assert(r@ =~= Seq::<TodoView>::empty());
        }
        r
    }

    pub fn len(&self) -> (n: usize)
        ensures
            n == self@.len(),
    {
        self.0.len()
    }

    /// Append an item at the end of the list.
    pub fn add_todo(&mut self, todo: Todo)
        ensures
            final (self)@ == old(self)@.push(todo@),
    {
        self.0.push(todo);
        proof {
            assert(final (self)@ =~= old(self)@.push(todo@));
        }
    }

    /// Remove the item at `idx`; a no-op on an empty list. The caller keeps
    /// `idx` in range, as the input machine does.
    pub fn remove_todo(&mut self, idx: usize)
        requires
            old(self)@.len() == 0 || idx < old(self)@.len(),
        ensures
            old(self)@.len() == 0 ==> final (self)@ == old(self)@,
            old(self)@.len() > 0 ==> final (self)@ == old(self)@.remove(idx as int),
    {
        if self.0.len() > 0 {
            self.0.remove(idx);
            proof {
                assert(final (self)@ =~= old(self)@.remove(idx as int));
            }
        }
    }

    /// Replace the item at `idx`. The caller keeps `idx` in range.
    pub fn update_todo(&mut self, idx: usize, todo: Todo)
        requires
            idx < old(self)@.len(),
        ensures
            final (self)@ == old(self)@.update(idx as int, todo@),
    {
        self.0.set(idx, todo);
        proof {
            assert(final (self)@ =~= old(self)@.update(idx as int, todo@));
        }
    }

    /// Apply one queued mutation to the list.
    pub fn apply_mutation(&mut self, req: MutationRequest)
        requires
            mutation_valid(old(self)@, req),
        ensures
            final (self)@ == apply_mutation_of(old(self)@, req),
    {
        match req {
            MutationRequest::Add(t) => self.add_todo(t),
            MutationRequest::Update(idx, t) => self.update_todo(idx, t),
            MutationRequest::Remove(idx) => self.remove_todo(idx),
        }
    }

    /// Serialize the whole list: the full content of the backing file after
    /// a persist.
    pub fn render(&self) -> (r: String)
        ensures
            r@ == render_of(self@),
    {
        let mut out = String::new();
        let mut i: usize = 0;
        while i < self.0.len()
            invariant
                i <= self.0.len(),
                out@ == render_of(self@.take(i as int)),
            decreases self.0.len() - i,
        {
            let line = self.0[i].to_line();
            out.append(line.as_str());
            out.append("\n");
            proof {
                reveal_strlit("\n");
                let items = self@;
                assert(items.take(i + 1) =~= items.take(i as int) + seq![items[i as int]]);
                lemma_render_of_concat(items.take(i as int), seq![items[i as int]]);
                let single = seq![items[i as int]];
                assert(single.drop_first() =~= Seq::<TodoView>::empty());
                assert(render_of(single) == line_of(single[0]) + seq!['\n'] + render_of(
                    single.drop_first(),
                ));
                assert(render_of(single) =~= line_of(items[i as int]) + seq!['\n']);
                assert(out@ =~= render_of(items.take(i + 1)));
            }
            i += 1;
        }
        proof {
            assert(self@.take(self.0.len() as int) =~= self@);
        }
        out
    }

    /// Deserialize a whole backing file; `None` exactly where some line is
    /// malformed, which a host treats as a fatal parse error.
    pub fn load(content: &str) -> (r: Option<Todos>)
        ensures
            match r {
                Some(ts) => parse_content_of(content@) == Some(ts@),
                None => parse_content_of(content@) is None,
            },
    {
        let n = content.unicode_len();
        let mut items: Vec<Todo> = Vec::new();
        let mut start: usize = 0;
        proof {
            assert(content@.skip(0) =~= content@);
            assert(items@.map_values(|t: Todo| t@) =~= Seq::<TodoView>::empty());
        }
        while start < n
            invariant
                start <= n,
                n == content@.len(),
                parse_content_of(content@) == (match parse_content_of(
                    content@.skip(start as int),
                ) {
                    Some(rest) => Some(items@.map_values(|t: Todo| t@) + rest),
                    None => None::<Seq<TodoView>>,
                }),
            decreases n - start,
        {
            let ghost tail = content@.skip(start as int);
            let ghost prefix = items@.map_values(|t: Todo| t@);
            match find_char_from(content, start, '\n') {
                Some(j) => {
                    proof {
                        lemma_find_char_range(tail, '\n');
                        assert(content@.subrange(start as int, j as int) =~= tail.take(
                            j - start,
                        ));
                    }
                    let piece = content.substring_char(start, j);
                    match Todo::parse_line(piece) {
                        Some(t) => {
                            proof {
                                assert(tail.skip(j - start + 1) =~= content@.skip(j + 1));
                                assert(items@.push(t).map_values(|x: Todo| x@) =~= prefix + seq![
                                    t@,
                                ]);
                                assert forall|rest: Seq<TodoView>|
                                    (prefix + seq![t@]) + rest =~= prefix + (seq![t@]
                                        + rest) by {}
                            }
                            items.push(t);
                            start = j + 1;
                        },
                        None => {
                            return None;
                        },
                    }
                },
                None => {
                    proof {
                        assert(content@.subrange(start as int, n as int) =~= tail);
                    }
                    let piece = content.substring_char(start, n);
                    match Todo::parse_line(piece) {
                        Some(t) => {
                            proof {
                                assert(items@.push(t).map_values(|x: Todo| x@) =~= prefix + seq![
                                    t@,
                                ]);
                                assert(content@.skip(n as int) =~= Seq::<char>::empty());
                                assert((prefix + seq![t@]) + Seq::<TodoView>::empty() =~= prefix
                                    + seq![t@]);
                            }
                            items.push(t);
                            start = n;
                        },
                        None => {
                            return None;
                        },
                    }
                },
            }
        }
        proof {
            assert(content@.skip(n as int) =~= Seq::<char>::empty());
            assert(items@.map_values(|t: Todo| t@) + Seq::<TodoView>::empty() =~= items@.map_values(
                |t: Todo| t@,
            ));
        }
        Some(Todos(items))
    }
}

/// A name the backing file can carry: at least one character (a shorter line
/// would be rejected on load) and no embedded newline.
pub open spec fn todo_storable(t: TodoView) -> bool {
    t.name.len() >= 1 && (forall|i: int| 0 <= i < t.name.len() ==> t.name[i] != '\n')
}

/// One storable item survives its own serialization.
pub proof fn lemma_parse_line_round_trip(t: TodoView)
    requires
        todo_storable(t),
    ensures
        parse_line_of(line_of(t)) == Some(t),
{
    let l = line_of(t);
    assert(l[0] == flag_char(t.completed));
    assert(l[1] == ';');
    assert(l[0] != ';');
    lemma_find_char_at(l, ';', 1);
    assert(l.subrange(2, l.len() as int) =~= t.name);
    assert((l[0] == '1') == t.completed);
}

/// Law: persist followed by load reproduces the list exactly, in order, for
/// every list of storable items.
pub proof fn lemma_render_parse_round_trip(items: Seq<TodoView>)
    requires
        forall|i: int| 0 <= i < items.len() ==> todo_storable(#[trigger] items[i]),
    ensures
        parse_content_of(render_of(items)) == Some(items),
    decreases items.len(),
{
    if items.len() > 0 {
        let t = items[0];
        let line = line_of(t);
        let rest = render_of(items.drop_first());
        let c = render_of(items);
        assert(c == line + seq!['\n'] + rest);
        assert forall|j: int| 0 <= j < line.len() implies c[j] != '\n' by {
            assert(c[j] == line[j]);
            if j >= 2 {
                assert(line[j] == t.name[j - 2]);
            }
        }
        assert(c[line.len() as int] == '\n');
        lemma_find_char_at(c, '\n', line.len() as int);
        assert(c.take(line.len() as int) =~= line);
        lemma_parse_line_round_trip(t);
        assert(c.skip(line.len() as int + 1) =~= rest);
        assert forall|i: int| 0 <= i < items.drop_first().len() implies todo_storable(
            #[trigger] items.drop_first()[i],
        ) by {
            assert(items.drop_first()[i] == items[i + 1]);
        }
        lemma_render_parse_round_trip(items.drop_first());
        assert(seq![t] + items.drop_first() =~= items);
    }
}

/// Law: persisting is deterministic — a second persist without any mutation
/// in between produces character-identical file content.
pub proof fn lemma_persist_idempotent(items: Seq<TodoView>, first: Seq<char>, second: Seq<char>)
    requires
        first == render_of(items),
        second == render_of(items),
    ensures
        first == second,
{
}

} // verus!
