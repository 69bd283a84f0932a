use vstd::prelude::*;

verus! {

/// The character sequences a vector of strings denotes.
pub open spec fn strings_view(s: Seq<String>) -> Seq<Seq<char>> {
    s.map(|i: int, m: String| m@)
}

#[derive(PartialEq, Eq, Structural, Clone, Copy, Debug)]
/// Whether a call into the data service succeeded or failed.
pub enum SandstormErr {
    /// The call succeeded.
    Success,
    /// The call failed because the table does not exist.
    TableDoesNotExist,
}

/// The data-service interface a procedure programs against. The
/// original form of this interface carries no contracts; it is the
/// abstract surface its mock below and the richer context type both
/// answer to.
pub trait DB {
    /// Records a diagnostic message.
    fn debug_log(&mut self, message: &str);

    /// Creates a table; true when the table was created.
    fn create_table(&mut self, table_id: u64) -> bool;

    /// Looks a key up in a table.
    fn get_key(&self, table_id: u64, key: &Vec<u8>) -> Result<Vec<u8>, SandstormErr>;

    /// Removes a key from a table.
    fn delete_key(&mut self, table_id: u64, key: &Vec<u8>);

    /// Writes a key-value pair to a table.
    fn put_key(&mut self, table_id: u64, key: &Vec<u8>, value: &Vec<u8>) -> SandstormErr;

    /// Allocates a value region of the given length for a key.
    fn allocate(&self, table: u64, key: &Vec<u8>, val_len: usize) -> Option<Vec<u8>>;
}

/// A mock data service for exercising procedures: it answers every
/// call trivially and records what was logged.
pub struct MockDB {
    messages: Vec<String>,
}

impl MockDB {
    /// The messages logged so far.
    pub closed spec fn spec_messages(self) -> Seq<Seq<char>> {
        strings_view(self.messages@)
    }

    /// Creates a mock with no messages logged.
    pub fn new() -> (r: MockDB)
        ensures
            r.spec_messages() == Seq::<Seq<char>>::empty(),
    {
        let r = MockDB { messages: Vec::new() };
        proof {
            assert(r.spec_messages() =~= Seq::<Seq<char>>::empty());
        }
        r
    }

    /// Compares the logged messages against the expected ones; true
    /// exactly when they match, message for message.
    pub fn assert_messages(&self, messages: &Vec<String>) -> (r: bool)
        ensures
            r <==> strings_view(messages@) == self.spec_messages(),
    {
        if messages.len() != self.messages.len() {
            proof {
                assert(strings_view(messages@).len() != self.spec_messages().len());
            }
            return false;
        }
        let n = messages.len();
        let mut i: usize = 0;
        while i < n
            invariant
                n == messages@.len() && n == self.messages@.len(),
                0 <= i <= n,
                forall|j: int| 0 <= j < i ==> #[trigger] messages@[j]@ == self.messages@[j]@,
            decreases n - i,
        {
            if !messages[i].eq(&self.messages[i]) {
                proof {
                    assert(strings_view(messages@)[i as int] != self.spec_messages()[i as int]);
                }
                return false;
            }
            i += 1;
        }
        proof {
            assert(strings_view(messages@) =~= self.spec_messages());
        }
        true
    }

    /// Forgets every logged message.
    pub fn clear_messages(&mut self)
        ensures
            final(self).spec_messages() == Seq::<Seq<char>>::empty(),
    {
        self.messages.clear();
        proof {
            assert(self.spec_messages() =~= Seq::<Seq<char>>::empty());
        }
    }
}

impl DB for MockDB {
    /// Appends the message to the log.
    fn debug_log(&mut self, message: &str) {
        self.messages.push(message.to_owned());
    }

    /// Pretends the table was created.
    fn create_table(&mut self, _table_id: u64) -> bool {
        true
    }

    /// The mock holds no data; every lookup misses.
    fn get_key(&self, _table_id: u64, _key: &Vec<u8>) -> Result<Vec<u8>, SandstormErr> {
        Err(SandstormErr::TableDoesNotExist)
    }

    /// The mock holds no data; nothing to remove.
    fn delete_key(&mut self, _table_id: u64, _key: &Vec<u8>) {
    }

    /// Pretends the pair was written.
    fn put_key(&mut self, _table_id: u64, _key: &Vec<u8>, _value: &Vec<u8>) -> SandstormErr {
        SandstormErr::Success
    }

    /// The mock allocates nothing.
    fn allocate(&self, _table: u64, _key: &Vec<u8>, _val_len: usize) -> Option<Vec<u8>> {
        None
    }
}

/// A data service that swallows everything; a placeholder peer of the
/// mock.
pub struct NullDB {}

} // verus!
