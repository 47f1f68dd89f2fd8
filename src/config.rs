use vstd::prelude::*;
use vstd::string::*;
use crate::text::{
    decimal, lower_of, lowercase, parse_usize, parses_as_usize, str_eq, usize_text,
};

verus! {

/// The namespace of this library's session options.
pub const PREFIX: &'static str = "lightfusion";

/// What the batch size option is for, as the session lists it.
pub const BATCH_SIZE_DESCRIPTION: &'static str =
    "Batch size to be used. Valid value positive non-zero integers. Default: 1";

/// The one option's key, as `set` compares it after lowering case.
pub open spec fn batch_size_key() -> Seq<char> {
    seq!['b', 'a', 't', 'c', 'h', '_', 's', 'i', 'z', 'e']
}

/// Why a session option could not be set.
#[derive(Debug, Clone, PartialEq, Eq)]
pub enum ConfigError {
    /// The value is not a positive integer.
    InvalidBatchSize,
    /// No option has this key (given here in lower case).
    UnknownKey(String),
}

/// An option as the session lists it.
#[derive(Debug, Clone)]
pub struct ConfigEntry {
    pub key: String,
    pub value: Option<String>,
    pub description: String,
}

/// The library's session options: how many rows go to the model at once.
#[derive(Debug, Clone)]
pub struct LightfusionConfig {
    batch_size: usize,
}

impl LightfusionConfig {
    /// The batch size these options hold.
    pub closed spec fn size(&self) -> usize {
        self.batch_size
    }

    /// The batch size is never zero.
    pub closed spec fn wf(&self) -> bool {
        self.batch_size > 0
    }

    pub fn batch_size(&self) -> (r: usize)
        ensures
            r == self.size(),
    {
        self.batch_size
    }

    /// Sets the option named by `key`, whatever its case. `batch_size` takes
    /// a positive integer in decimal.
    pub fn set(&mut self, key: &str, value: &str) -> (r: Result<(), ConfigError>)
        requires
            old(self).wf(),
        ensures
            final(self).wf(),
            lower_of(key@) != batch_size_key() ==> *final(self) == *old(self) && (r matches Err(
                ConfigError::UnknownKey(k),
            ) && k@ == lower_of(key@)),
            lower_of(key@) == batch_size_key() ==> {
                &&& (r is Ok <==> exists|n: usize| n > 0 && parses_as_usize(value@, n))
                &&& r is Ok ==> parses_as_usize(value@, final(self).size())
                &&& r is Err ==> r == Err::<(), ConfigError>(ConfigError::InvalidBatchSize)
                    && *final(self) == *old(self)
            },
    {
        self.set_lowered(lowercase(key), value)
    }

    /// Sets the option named by `key`, which is already in lower case.
    pub fn set_lowered(&mut self, key: String, value: &str) -> (r: Result<(), ConfigError>)
        requires
            old(self).wf(),
        ensures
            final(self).wf(),
            key@ != batch_size_key() ==> *final(self) == *old(self) && (r matches Err(
                ConfigError::UnknownKey(k),
            ) && k@ == key@),
            key@ == batch_size_key() ==> {
                &&& (r is Ok <==> exists|n: usize| n > 0 && parses_as_usize(value@, n))
                &&& r is Ok ==> parses_as_usize(value@, final(self).size())
                &&& r is Err ==> r == Err::<(), ConfigError>(ConfigError::InvalidBatchSize)
                    && *final(self) == *old(self)
            },
    {
        let name = "batch_size";
        proof {
            reveal_strlit("batch_size");
            assert(name@ =~= batch_size_key());
        }
        if str_eq(key.as_str(), name) {
            match parse_usize(value) {
                Some(n) => {
                    if n > 0 {
                        self.batch_size = n;
                        Ok(())
                    } else {
                        proof {
                            assert forall|m: usize| m > 0 implies !parses_as_usize(value@, m) by {
                                assert(parses_as_usize(value@, n));
                            }
                        }
                        Err(ConfigError::InvalidBatchSize)
                    }
                },
                None => {
                    proof {
                        assert forall|m: usize| m > 0 implies !parses_as_usize(value@, m) by {
                            if parses_as_usize(value@, m) {
                                assert(crate::text::is_usize_text(value@));
                            }
                        }
                    }
                    Err(ConfigError::InvalidBatchSize)
                },
            }
        } else {
            Err(ConfigError::UnknownKey(key))
        }
    }

    /// The options as the session lists them: the batch size under
    /// `lightfusion.batch_size`, in decimal, with its description.
    pub fn entries(&self) -> (r: Vec<ConfigEntry>)
        ensures
            r@.len() == 1,
            r@[0].key@ == "lightfusion.batch_size"@,
            r@[0].value matches Some(v) && v@ == decimal(self.size() as nat),
            r@[0].description@ == BATCH_SIZE_DESCRIPTION@,
    {
        let key = String::from_str(PREFIX).concat(".batch_size");
        proof {
            reveal_strlit("lightfusion");
            reveal_strlit(".batch_size");
            reveal_strlit("lightfusion.batch_size");
            assert(key@ =~= "lightfusion.batch_size"@);
        }
        let entry = ConfigEntry {
            key,
            value: Some(usize_text(self.batch_size)),
            description: String::from_str(BATCH_SIZE_DESCRIPTION),
        };
        let mut r: Vec<ConfigEntry> = Vec::new();
        r.push(entry);
        r
    }
}

impl Default for LightfusionConfig {
    fn default() -> (r: Self)
        ensures
            r.size() == 1,
            r.wf(),
    {
        LightfusionConfig { batch_size: 1 }
    }
}

} // verus!
