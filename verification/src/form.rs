use vstd::prelude::*;

verus! {

/// What is known of an uploaded file before its bytes are fetched:
/// the original filename, the MIME type, and the size in bytes.
pub struct FileMeta {
    pub name: String,
    pub content_type: String,
    pub size: u64,
}

impl FileMeta {
    /// A copy of this description.
    pub fn duplicate(&self) -> (r: FileMeta)
        ensures
            r == *self,
    {
        FileMeta { name: self.name.clone(), content_type: self.content_type.clone(), size: self.size }
    }
}

/// One entry of a multipart form submission: either a plain text field
/// or an uploaded file.
pub enum FormEntry {
    Field(String),
    File(FileMeta),
}

/// A multipart form submission, as a sequence of named entries in
/// submission order. A name may occur more than once; lookups see the
/// first occurrence.
pub struct FormMap {
    pub entries: Vec<(String, FormEntry)>,
}

/// The first entry of `entries` whose name reads `name`, if any.
pub open spec fn lookup_seq(entries: Seq<(String, FormEntry)>, name: Seq<char>) -> Option<FormEntry>
    decreases entries.len(),
{
    if entries.len() == 0 {
        None
    } else if entries[0].0@ == name {
        Some(entries[0].1)
    } else {
        lookup_seq(entries.drop_first(), name)
    }
}

impl FormMap {
    /// The first entry under the given name, if any.
    pub open spec fn lookup(self, name: Seq<char>) -> Option<FormEntry> {
        lookup_seq(self.entries@, name)
    }

    /// The text of the field under the given name: nothing when the name
    /// is absent or names a file instead of a text field.
    pub open spec fn field_text(self, name: Seq<char>) -> Option<Seq<char>> {
        match self.lookup(name) {
            Some(FormEntry::Field(s)) => Some(s@),
            _ => None,
        }
    }

    /// An empty form.
    pub fn new() -> (r: FormMap)
        ensures
            r.entries@.len() == 0,
    {
        FormMap { entries: Vec::new() }
    }

    /// Adds a text field at the end of the form.
    pub fn push_field(&mut self, name: String, value: String)
        ensures
            final(self).entries@ == old(self).entries@.push((name, FormEntry::Field(value))),
    {
        self.entries.push((name, FormEntry::Field(value)));
    }

    /// Adds a file entry at the end of the form.
    pub fn push_file(&mut self, name: String, file: FileMeta)
        ensures
            final(self).entries@ == old(self).entries@.push((name, FormEntry::File(file))),
    {
        self.entries.push((name, FormEntry::File(file)));
    }

    /// Finds the first entry under the given name.
    pub fn get(&self, name: &str) -> (r: Option<&FormEntry>)
        ensures
            match r {
                Some(e) => self.lookup(name@) == Some(*e),
                None => self.lookup(name@) is None,
            },
    {
        let n = self.entries.len();
        let mut i: usize = 0;
        proof {
            assert(self.entries@.skip(0) =~= self.entries@);
        }
        while i < n
            invariant
                i <= n,
                n == self.entries@.len(),
                lookup_seq(self.entries@.skip(i as int), name@) == lookup_seq(self.entries@, name@),
            decreases n - i,
        {
            let entry_name: &String = &self.entries[i].0;
            let name_string = String::from_str(name);
            if *entry_name == name_string {
                proof {
                    let tail = self.entries@.skip(i as int);
                    assert(tail[0] == self.entries@[i as int]);
                    assert(lookup_seq(tail, name@) == Some(self.entries@[i as int].1));
                }
                return Some(&self.entries[i].1);
            }
            proof {
                let tail = self.entries@.skip(i as int);
                assert(tail[0] == self.entries@[i as int]);
                assert(tail.drop_first() =~= self.entries@.skip(i + 1));
            }
            i += 1;
        }
        proof {
            assert(self.entries@.skip(n as int) =~= Seq::<(String, FormEntry)>::empty());
        }
        None
    }
}

} // verus!
