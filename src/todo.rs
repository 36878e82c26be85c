//! The to-do list kept by the small web service: items with an id and a
//! title, added, listed and removed by id.
use uuid::Uuid;
use vstd::prelude::*;

verus! {

#[derive(Debug)]
pub struct Todo {
    pub id: String,
    pub title: String,
}

/// The body of a request that adds an item.
#[derive(Debug)]
pub struct AddItemBody {
    pub title: String,
}

/// The list behind the service. The host guards it against concurrent use.
pub struct AppState {
    pub todo: Vec<Todo>,
}

/// Relies on uuid's `Uuid::new_v4` and its `Display`: a fresh random id,
/// written as 36 hyphenated hex characters.
#[verifier::external_body]
fn new_todo_id() -> (r: String)
    ensures
        r@.len() == 36,
{
    Uuid::new_v4().to_string()
}

impl Todo {
    /// A copy of the item.
    pub fn duplicate(&self) -> (r: Todo)
        ensures
            r == *self,
    {
        Todo { id: self.id.clone(), title: self.title.clone() }
    }
}

/// Index of the first item with id `id`, if any.
pub open spec fn first_with_id(items: Seq<Todo>, id: Seq<char>, i: int) -> bool {
    &&& 0 <= i < items.len()
    &&& items[i].id@ == id
    &&& (forall|j: int| 0 <= j < i ==> (#[trigger] items[j]).id@ != id)
}

impl AppState {
    pub fn new() -> (r: AppState)
        ensures
            r.todo@.len() == 0,
    {
        AppState { todo: Vec::new() }
    }

    /// Appends an item with the given id and title, and returns it.
    pub fn add_item(&mut self, id: String, payload: AddItemBody) -> (r: Todo)
        ensures
            r.id == id,
            r.title == payload.title,
            final(self).todo@ == old(self).todo@.push(r),
    {
        let new_item = Todo { id, title: payload.title };
        self.todo.push(new_item.duplicate());
        new_item
    }

    /// Appends an item with a fresh random id and returns it.
    pub fn add_todo(&mut self, payload: AddItemBody) -> (r: Todo)
        ensures
            r.id@.len() == 36,
            r.title == payload.title,
            final(self).todo@ == old(self).todo@.push(r),
    {
        let id = new_todo_id();
        self.add_item(id, payload)
    }

    /// A copy of every item, in order.
    pub fn list_items(&self) -> (r: Vec<Todo>)
        ensures
            r@ == self.todo@,
    {
        let mut out: Vec<Todo> = Vec::new();
        let mut i: usize = 0;
        while i < self.todo.len()
            invariant
                i <= self.todo.len(),
                out@ == self.todo@.take(i as int),
            decreases self.todo.len() - i,
        {
            out.push(self.todo[i].duplicate());
            i = i + 1;
            assert(out@ =~= self.todo@.take(i as int));
        }
        assert(self.todo@.take(self.todo.len() as int) =~= self.todo@);
        out
    }

    /// Removes and returns the first item whose id is `item_id`; `None`, with
    /// the list unchanged, when there is none.
    pub fn remove_todo(&mut self, item_id: &String) -> (r: Option<Todo>)
        ensures
            r is None <==> (forall|j: int| 0 <= j < old(self).todo@.len() ==> (#[trigger] old(self).todo@[j]).id@ != item_id@),
            r is None ==> final(self).todo@ == old(self).todo@,
            r matches Some(t) ==> exists|i: int| first_with_id(old(self).todo@, item_id@, i)
                && t == old(self).todo@[i]
                && final(self).todo@ == old(self).todo@.remove(i),
    {
        let mut i: usize = 0;
        while i < self.todo.len()
            invariant
                i <= self.todo.len(),
                self.todo@ == old(self).todo@,
                forall|j: int| 0 <= j < i ==> (#[trigger] self.todo@[j]).id@ != item_id@,
            decreases self.todo.len() - i,
        {
            if self.todo[i].id.eq(item_id) {
                let ghost before = self.todo@;
                let removed = self.todo.remove(i);
                assert(first_with_id(before, item_id@, i as int));
                assert(removed == before[i as int]);
                return Some(removed);
            }
            i = i + 1;
        }
        None
    }
}

} // verus!
