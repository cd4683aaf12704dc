use vstd::prelude::*;

use crate::error::P2pSyncServerError;
use crate::fetch::{block_not_found, StorageRead};
use crate::felt::ClassHash;
use crate::query::{BlockHashOrNumber, BlockNumber};
use crate::state_diff::ThinStateDiff;

verus! {

/// An executable class as the class manager returns it: deprecated (Cairo 0) or
/// current (Cairo 1).
#[derive(Clone, Debug, PartialEq, Eq)]
pub enum ContractClass<D, C> {
    V0(D),
    V1(C),
}

/// A class as a class response carries it: a deprecated class, or the Sierra form
/// of a current one.
#[derive(Clone, Debug, PartialEq, Eq)]
pub enum ApiContractClass<D, S> {
    DeprecatedContractClass(D),
    ContractClass(S),
}

/// What a class fetch asks of the class manager next.
#[derive(Clone, Copy, Debug, PartialEq, Eq, Structural)]
pub enum ClassRequest {
    /// The executable form of a class declared as deprecated.
    Executable(ClassHash),
    /// The Sierra form of a newly declared class.
    Sierra(ClassHash),
}

/// Gathers the classes that one block declares, asking the class manager for them
/// one at a time: first the deprecated declared classes, then the newly declared
/// ones, each in the state diff's own order.
pub struct ClassFetch<D, S> {
    pub deprecated: Vec<ClassHash>,
    pub declared: Vec<ClassHash>,
    pub classes: Vec<(ApiContractClass<D, S>, ClassHash)>,
}

pub open spec fn is_deprecated_class<D, S>(c: ApiContractClass<D, S>) -> bool {
    c is DeprecatedContractClass
}

impl<D, S> ClassFetch<D, S> {
    /// The classes gathered so far are those of the first hashes, in order:
    /// deprecated ones for the deprecated hashes, Sierra ones for the others.
    pub open spec fn well_formed(&self) -> bool {
        let nd = self.deprecated@.len();
        &&& self.classes@.len() <= nd + self.declared@.len()
        &&& forall|i: int| 0 <= i < self.classes@.len() ==> {
            &&& i < nd ==> (#[trigger] self.classes@[i]).1 == self.deprecated@[i] && is_deprecated_class(
                self.classes@[i].0,
            )
            &&& i >= nd ==> self.classes@[i].1 == self.declared@[i - nd] && !is_deprecated_class(
                self.classes@[i].0,
            )
        }
    }

    pub open spec fn is_complete(&self) -> bool {
        self.classes@.len() == self.deprecated@.len() + self.declared@.len()
    }

    /// The request for the first class not gathered yet.
    pub open spec fn pending(&self) -> Option<ClassRequest> {
        let nd = self.deprecated@.len();
        let k = self.classes@.len();
        if k < nd {
            Some(ClassRequest::Executable(self.deprecated@[k as int]))
        } else if k < nd + self.declared@.len() {
            Some(ClassRequest::Sierra(self.declared@[k - nd]))
        } else {
            None
        }
    }

    /// Starts gathering the classes declared in `block_number`, given its stored
    /// state diff and the class manager's block marker (classes of blocks at or
    /// past the marker are not in the class manager yet).
    pub fn new(
        block_number: BlockNumber,
        state_diff: StorageRead<ThinStateDiff>,
        class_manager_block_marker: Result<BlockNumber, P2pSyncServerError>,
    ) -> (r: Result<ClassFetch<D, S>, P2pSyncServerError>)
        ensures
            match state_diff {
                Err(e) => r == Err::<ClassFetch<D, S>, P2pSyncServerError>(e),
                Ok(None) => r == Err::<ClassFetch<D, S>, P2pSyncServerError>(block_not_found(block_number)),
                Ok(Some(d)) => match class_manager_block_marker {
                    Err(e) => r == Err::<ClassFetch<D, S>, P2pSyncServerError>(e),
                    Ok(marker) => if block_number.0 >= marker.0 {
                        r == Err::<ClassFetch<D, S>, P2pSyncServerError>(block_not_found(block_number))
                    } else {
                        r matches Ok(f) && f.well_formed() && f.classes@.len() == 0
                            && f.deprecated@ == d.deprecated_declared_classes@
                            && f.declared@ == d.declared_classes@.map_values(|p: (ClassHash, ClassHash)| p.0)
                    },
                },
            },
    {
        let d = match state_diff {
            Err(e) => return Err(e),
            Ok(None) => return Err(P2pSyncServerError::BlockNotFound {
                block_hash_or_number: BlockHashOrNumber::Number(block_number),
            }),
            Ok(Some(d)) => d,
        };
        let marker = match class_manager_block_marker {
            Err(e) => return Err(e),
            Ok(m) => m,
        };
        if block_number.0 >= marker.0 {
            return Err(P2pSyncServerError::BlockNotFound {
                block_hash_or_number: BlockHashOrNumber::Number(block_number),
            });
        }
        let mut declared: Vec<ClassHash> = Vec::new();
        let mut i: usize = 0;
        while i < d.declared_classes.len()
            invariant
                i <= d.declared_classes@.len(),
                declared@ == d.declared_classes@.take(i as int).map_values(|p: (ClassHash, ClassHash)| p.0),
            decreases d.declared_classes@.len() - i,
        {
            declared.push(d.declared_classes[i].0);
            proof {
                assert(d.declared_classes@.take(i + 1).map_values(|p: (ClassHash, ClassHash)| p.0)
                    =~= d.declared_classes@.take(i as int).map_values(|p: (ClassHash, ClassHash)| p.0).push(
                    d.declared_classes@[i as int].0,
                ));
            }
            i = i + 1;
        }
        proof {
            assert(d.declared_classes@.take(i as int) =~= d.declared_classes@);
        }
        Ok(ClassFetch { deprecated: d.deprecated_declared_classes, declared, classes: Vec::new() })
    }

    /// What to ask the class manager next; `None` once every class is gathered.
    pub fn next_request(&self) -> (r: Option<ClassRequest>)
        ensures
            r == self.pending(),
    {
        let nd = self.deprecated.len();
        let k = self.classes.len();
        if k < nd {
            Some(ClassRequest::Executable(self.deprecated[k]))
        } else if k - nd < self.declared.len() {
            Some(ClassRequest::Sierra(self.declared[k - nd]))
        } else {
            None
        }
    }

    /// Takes the class manager's answer to a request for an executable class. It
    /// must be a deprecated class: a current one means that the stored data is
    /// corrupt.
    pub fn on_executable<C>(&mut self, reply: Result<Option<ContractClass<D, C>>, P2pSyncServerError>) -> (r: Result<
        (),
        P2pSyncServerError,
    >)
        requires
            old(self).well_formed(),
            old(self).pending() matches Some(ClassRequest::Executable(_)),
        ensures
            final(self).deprecated@ == old(self).deprecated@,
            final(self).declared@ == old(self).declared@,
            final(self).well_formed(),
            old(self).pending() matches Some(ClassRequest::Executable(h)) && match reply {
                Err(e) => r == Err::<(), P2pSyncServerError>(e) && final(self).classes@ == old(self).classes@,
                Ok(None) => r == Err::<(), P2pSyncServerError>(P2pSyncServerError::ClassNotFound { class_hash: h })
                    && final(self).classes@ == old(self).classes@,
                Ok(Some(ContractClass::V1(_))) => r == Err::<(), P2pSyncServerError>(
                    P2pSyncServerError::UnexpectedCairo1Class { class_hash: h },
                ) && final(self).classes@ == old(self).classes@,
                Ok(Some(ContractClass::V0(c))) => r == Ok::<(), P2pSyncServerError>(()) && final(self).classes@
                    == old(self).classes@.push((ApiContractClass::DeprecatedContractClass(c), h)),
            },
    {
        let class_hash = self.deprecated[self.classes.len()];
        match reply {
            Err(e) => Err(e),
            Ok(None) => Err(P2pSyncServerError::ClassNotFound { class_hash }),
            Ok(Some(ContractClass::V1(_))) => Err(P2pSyncServerError::UnexpectedCairo1Class { class_hash }),
            Ok(Some(ContractClass::V0(c))) => {
                self.classes.push((ApiContractClass::DeprecatedContractClass(c), class_hash));
                Ok(())
            },
        }
    }

    /// Takes the class manager's answer to a request for a Sierra class.
    pub fn on_sierra(&mut self, reply: Result<Option<S>, P2pSyncServerError>) -> (r: Result<(), P2pSyncServerError>)
        requires
            old(self).well_formed(),
            old(self).pending() matches Some(ClassRequest::Sierra(_)),
        ensures
            final(self).deprecated@ == old(self).deprecated@,
            final(self).declared@ == old(self).declared@,
            final(self).well_formed(),
            old(self).pending() matches Some(ClassRequest::Sierra(h)) && match reply {
                Err(e) => r == Err::<(), P2pSyncServerError>(e) && final(self).classes@ == old(self).classes@,
                Ok(None) => r == Err::<(), P2pSyncServerError>(P2pSyncServerError::ClassNotFound { class_hash: h })
                    && final(self).classes@ == old(self).classes@,
                Ok(Some(c)) => r == Ok::<(), P2pSyncServerError>(()) && final(self).classes@
                    == old(self).classes@.push((ApiContractClass::ContractClass(c), h)),
            },
    {
        let class_hash = self.declared[self.classes.len() - self.deprecated.len()];
        match reply {
            Err(e) => Err(e),
            Ok(None) => Err(P2pSyncServerError::ClassNotFound { class_hash }),
            Ok(Some(c)) => {
                self.classes.push((ApiContractClass::ContractClass(c), class_hash));
                Ok(())
            },
        }
    }

    /// The records of a class response for the block, once every class is
    /// gathered: the deprecated declared classes first, then the newly declared
    /// ones, each paired with its hash.
    pub fn into_classes(self) -> (r: Vec<(ApiContractClass<D, S>, ClassHash)>)
        requires
            self.well_formed(),
            self.is_complete(),
        ensures
            r@ == self.classes@,
            r@.len() == self.deprecated@.len() + self.declared@.len(),
            forall|i: int| 0 <= i < self.deprecated@.len() ==> (#[trigger] r@[i]).1 == self.deprecated@[i]
                && is_deprecated_class(r@[i].0),
            forall|j: int| 0 <= j < self.declared@.len() ==> (#[trigger] r@[self.deprecated@.len() + j]).1
                == self.declared@[j] && !is_deprecated_class(r@[self.deprecated@.len() + j].0),
    {
        self.classes
    }
}

} // verus!
