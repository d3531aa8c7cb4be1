//! Sample records of a chosen size, for exercising the engine.

use vstd::prelude::*;
use vstd::string::StringExecFns;

verus! {

/// A sample record.
#[derive(Debug)]
pub struct TestData {
    pub id: u64,
    pub name: String,
    pub email: String,
    pub description: String,
    pub tags: Vec<String>,
    pub metadata: Vec<String>,
    pub payload: Vec<u8>,
}

/// The size of the variable part of a record of `size_kb` kibibytes: the
/// whole size less 200 bytes for the fixed part, where it is larger than
/// that.
pub open spec fn payload_size(size_kb: usize) -> int {
    if size_kb * 1024 > 200 {
        size_kb * 1024 - 200
    } else {
        size_kb * 1024
    }
}

/// The letter `x`, `n` times.
pub open spec fn filler(n: int) -> Seq<char> {
    Seq::new(n as nat, |i: int| 'x')
}

/// The letter `x`, `n` times.
pub fn filler_text(n: usize) -> (r: String)
    ensures
        r@ == filler(n as int),
{
    let mut out = String::new();
    let mut i: usize = 0;
    proof {
        reveal_strlit("x");
        assert(out@ =~= filler(0));
    }
    while i < n
        invariant
            i <= n,
            out@ == filler(i as int),
            "x"@ == seq!['x'],
        decreases n - i,
    {
        out.append("x");
        i += 1;
        assert(out@ =~= filler(i as int));
    }
    out
}

impl TestData {
    /// A record of about `size_kb` kibibytes: a quarter of the variable
    /// part is text, three quarters are zero bytes.
    pub fn generate(size_kb: usize) -> (r: TestData)
        requires
            size_kb * 1024 <= usize::MAX,
        ensures
            r.id == 12345,
            r.name@ == "test_user_with_longer_name_for_realistic_data"@,
            r.email@ == "test.user.with.longer.email@example.com"@,
            r.description@ == filler(payload_size(size_kb) / 4),
            r.tags@.len() == 5,
            r.tags@[0]@ == "tag1"@,
            r.tags@[1]@ == "tag2"@,
            r.tags@[2]@ == "performance"@,
            r.tags@[3]@ == "test"@,
            r.tags@[4]@ == "benchmark"@,
            r.metadata@.len() == 3,
            r.metadata@[0]@ == "metadata1"@,
            r.metadata@[1]@ == "metadata2"@,
            r.metadata@[2]@ == "some_additional_info"@,
            r.payload@.len() == payload_size(size_kb) * 3 / 4,
            forall|i: int| 0 <= i < r.payload@.len() ==> r.payload@[i] == 0,
    {
        let target_size: usize = size_kb * 1024;
        let base_size: usize = 200;
        let size: usize = if target_size > base_size {
            target_size - base_size
        } else {
            target_size
        };
        let zeros: usize = size / 4 * 3 + (size % 4) * 3 / 4;
        let mut payload: Vec<u8> = Vec::new();
        let mut i: usize = 0;
        while i < zeros
            invariant
                i <= zeros,
                payload@.len() == i,
                forall|j: int| 0 <= j < i ==> payload@[j] == 0,
            decreases zeros - i,
        {
            payload.push(0);
            i += 1;
        }
        let mut tags: Vec<String> = Vec::new();
        tags.push("tag1".to_owned());
        tags.push("tag2".to_owned());
        tags.push("performance".to_owned());
        tags.push("test".to_owned());
        tags.push("benchmark".to_owned());
        let mut metadata: Vec<String> = Vec::new();
        metadata.push("metadata1".to_owned());
        metadata.push("metadata2".to_owned());
        metadata.push("some_additional_info".to_owned());
        TestData {
            id: 12345,
            name: "test_user_with_longer_name_for_realistic_data".to_owned(),
            email: "test.user.with.longer.email@example.com".to_owned(),
            description: filler_text(size / 4),
            tags,
            metadata,
            payload,
        }
    }
}

} // verus!
