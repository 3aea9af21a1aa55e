use vstd::prelude::*;

use crate::trainer::{chance, SHARE_SCALE};

verus! {

/// A decoded record together with its class label.
#[derive(Clone, Copy)]
pub struct ClassifiedData<D, C> {
    data: D,
    classification: C,
}

impl<D: Copy, C: Copy> ClassifiedData<D, C> {
    /// The record's data.
    pub closed spec fn datum(&self) -> D {
        self.data
    }

    /// The record's class label.
    pub closed spec fn class(&self) -> C {
        self.classification
    }

    pub fn new(data: D, classification: C) -> (r: Self)
        ensures
            r.datum() == data,
            r.class() == classification,
    {
        ClassifiedData { data, classification }
    }

    pub fn get_data(&self) -> (r: &D)
        ensures
            *r == self.datum(),
    {
        &self.data
    }

    pub fn get_class(&self) -> (r: C)
        ensures
            r == self.class(),
    {
        self.classification
    }
}

/// A fixed-size record that can be built from decoded bytes.
pub trait Datum<const SIZE: usize>: Copy {
    /// The record that `data` holds, or `None` where it holds none.
    spec fn from_bytes(data: Seq<u8>) -> Option<Self>;

    /// Builds the record that `data` holds.
    fn from(data: Vec<u8>) -> (r: Option<Self>)
        ensures
            r == Self::from_bytes(data@),
    ;
}

/// A record of `N` raw bytes: the first `N` bytes of the data, or none where
/// the data is shorter.
impl<const N: usize> Datum<N> for [u8; N] {
    open spec fn from_bytes(data: Seq<u8>) -> Option<[u8; N]> {
        if data.len() < N {
            None
        } else {
            Some(choose|a: [u8; N]| a@ == data.take(N as int))
        }
    }

    fn from(data: Vec<u8>) -> (r: Option<[u8; N]>) {
        if data.len() < N {
            return None;
        }
        let mut buf = [0u8; N];
        for i in 0..N
            invariant
                N <= data@.len(),
                buf@.len() == N,
                forall|j: int| 0 <= j < i ==> buf@[j] == data@[j],
        {
            buf[i] = data[i];
        }
        assert(buf@ =~= data@.take(N as int));
        proof {
            let c = choose|a: [u8; N]| a@ == data@.take(N as int);
            assert(c@ == buf@);
            assert(c =~= buf);
        }
        Some(buf)
    }
}

/// A source of classified records, read one entry at a time.
pub trait DatasetLoader<D: Datum<SIZE>, C, const SIZE: usize> {
    /// How many entries are left to read.
    spec fn remaining(&self) -> nat;

    /// What the entries read so far have yielded, in order.
    spec fn emitted(&self) -> Seq<Option<ClassifiedData<D, C>>>;

    /// What the loader keeps true between reads.
    spec fn inv(&self) -> bool;

    /// Whether the entry read as the `k`-th yields `r`.
    spec fn permits(&self, k: int, r: Option<ClassifiedData<D, C>>) -> bool;

    /// Reads the next entry: its record, or `None` where the entry yields none.
    fn next(&mut self) -> (r: Option<ClassifiedData<D, C>>)
        requires
            old(self).inv(),
            old(self).remaining() > 0,
        ensures
            final(self).inv(),
            final(self).remaining() == old(self).remaining() - 1,
            final(self).emitted() == old(self).emitted().push(r),
            old(self).permits(old(self).emitted().len() as int, r),
            forall|k: int, o: Option<ClassifiedData<D, C>>|
                #[trigger] final(self).permits(k, o) == old(self).permits(k, o),
    ;

    fn has_next(&self) -> (r: bool)
        ensures
            r == (self.remaining() > 0),
    ;
}

/// The records among `s`, in order.
pub open spec fn records_of<T>(s: Seq<Option<T>>) -> Seq<T>
    decreases s.len(),
{
    if s.len() == 0 {
        Seq::empty()
    } else {
        let init = records_of(s.drop_last());
        match s.last() {
            Some(v) => init.push(v),
            None => init,
        }
    }
}

/// `s` is strictly increasing.
pub open spec fn increasing(s: Seq<usize>) -> bool {
    forall|a: int, b: int| 0 <= a < b < s.len() ==> s[a] < s[b]
}

/// `s` lists the numbers `0..n` in order.
pub open spec fn lists_range(s: Seq<usize>, n: nat) -> bool {
    s.len() == n && forall|k: int| 0 <= k < n ==> s[k] == k
}

/// `train` and `val` split the record positions `0..n` between them: each
/// lists its positions in increasing order, and each position is in exactly
/// one of the two.
pub open spec fn is_split(train: Seq<usize>, val: Seq<usize>, n: nat) -> bool {
    &&& increasing(train)
    &&& increasing(val)
    &&& forall|k: int| 0 <= k < train.len() ==> train[k] < n
    &&& forall|k: int| 0 <= k < val.len() ==> val[k] < n
    &&& forall|i: usize| i < n ==> (train.contains(i) <==> !val.contains(i))
}

/// A read cursor after one more read: every read moves it on by one, up to
/// the largest position a cursor can hold.
pub open spec fn advanced(cursor: nat) -> nat {
    if cursor < usize::MAX {
        cursor + 1
    } else {
        cursor
    }
}

/// The records of a dataset, split once into a training and a validation
/// part, each read in order through its own cursor.
pub struct Dataset<D, C> {
    data: Vec<ClassifiedData<D, C>>,
    validation: Vec<usize>,
    training: Vec<usize>,
    cur_val: usize,
    cur_training: usize,
}

impl<D: Copy, C: Copy> Dataset<D, C> {
    /// All records, in the order they were loaded.
    pub closed spec fn records(&self) -> Seq<ClassifiedData<D, C>> {
        self.data@
    }

    /// The positions of the training records.
    pub closed spec fn training_split(&self) -> Seq<usize> {
        self.training@
    }

    /// The positions of the validation records.
    pub closed spec fn validation_split(&self) -> Seq<usize> {
        self.validation@
    }

    /// How many training records have been read since the last reset.
    pub closed spec fn training_cursor(&self) -> nat {
        self.cur_training as nat
    }

    /// How many validation records have been read since the last reset.
    pub closed spec fn validation_cursor(&self) -> nat {
        self.cur_val as nat
    }

    pub closed spec fn wf(&self) -> bool {
        is_split(self.training@, self.validation@, self.data@.len())
    }

    /// Reads every entry left in `loader` and keeps the records they yield,
    /// in order. Each record goes to the validation part with probability
    /// `share` parts per million, independently of the others, and to the
    /// training part otherwise.
    pub fn new<L: DatasetLoader<D, C, SIZE>, const SIZE: usize>(loader: &mut L, share: u32) -> (r:
        Self)
        where
            D: Datum<SIZE>,
        requires
            old(loader).inv(),
        ensures
            final(loader).inv(),
            final(loader).remaining() == 0,
            final(loader).emitted().len() == old(loader).emitted().len() + old(loader).remaining(),
            forall|k: int|
                old(loader).emitted().len() <= k < final(loader).emitted().len() ==> old(
                    loader,
                ).permits(k, #[trigger] final(loader).emitted()[k]),
            forall|k: int, o: Option<ClassifiedData<D, C>>|
                #[trigger] final(loader).permits(k, o) == old(loader).permits(k, o),
            is_split(r.training_split(), r.validation_split(), r.records().len()),
            r.records() == records_of(final(loader).emitted().skip(old(loader).emitted().len() as int)),
            r.wf(),
            r.training_cursor() == 0,
            r.validation_cursor() == 0,
            share == 0 ==> r.validation_split().len() == 0 && lists_range(
                r.training_split(),
                r.records().len(),
            ),
            share >= SHARE_SCALE ==> r.training_split().len() == 0 && lists_range(
                r.validation_split(),
                r.records().len(),
            ),
    {
        let ghost start = loader.emitted().len() as int;
        let ghost total = loader.remaining();
        let mut data: Vec<ClassifiedData<D, C>> = Vec::new();
        let mut val: Vec<usize> = Vec::new();
        let mut train: Vec<usize> = Vec::new();
        while loader.has_next()
            invariant
                is_split(train@, val@, data@.len()),
                train.len() + val.len() == data.len(),
                share == 0 ==> val.len() == 0 && lists_range(train@, data@.len()),
                share >= SHARE_SCALE ==> train.len() == 0 && lists_range(val@, data@.len()),
                0 <= start <= loader.emitted().len(),
                loader.inv(),
                loader.emitted().len() - start + loader.remaining() == total,
                start == old(loader).emitted().len(),
                forall|k: int|
                    start <= k < loader.emitted().len() ==> old(loader).permits(
                        k,
                        #[trigger] loader.emitted()[k],
                    ),
                forall|k: int, o: Option<ClassifiedData<D, C>>|
                    #[trigger] loader.permits(k, o) == old(loader).permits(k, o),
                data@ == records_of(loader.emitted().skip(start)),
            decreases loader.remaining(),
        {
            let ghost before = loader.emitted();
            let a = loader.next();
            proof {
                let s = loader.emitted().skip(start);
                assert(s.drop_last() =~= before.skip(start));
                assert(s.last() == a);
            }
            if let Some(x) = a {
                let i = data.len();
                let ghost t0 = train@;
                let ghost v0 = val@;
                data.push(x);
                if chance(share) {
                    val.push(i);
                } else {
                    train.push(i);
                }
                assert forall|j: usize| j < data@.len() implies (train@.contains(j)
                    <==> !val@.contains(j)) by {
                    lemma_push_contains(t0, i, j);
                    lemma_push_contains(v0, i, j);
                    if j == i {
                        lemma_lists_range_excludes(t0, i);
                        lemma_lists_range_excludes(v0, i);
                    }
                }
            }
        }
        Dataset { data, validation: val, training: train, cur_val: 0, cur_training: 0 }
    }

    /// The next unread validation record, or `None` once every validation
    /// record has been read; either way the validation cursor moves on.
    pub fn get_validation(&mut self) -> (r: Option<ClassifiedData<D, C>>)
        requires
            old(self).wf(),
        ensures
            final(self).wf(),
            final(self).records() == old(self).records(),
            final(self).training_split() == old(self).training_split(),
            final(self).validation_split() == old(self).validation_split(),
            final(self).training_cursor() == old(self).training_cursor(),
            r == if old(self).validation_cursor() < old(self).validation_split().len() {
                Some(
                    old(self).records()[old(self).validation_split()[old(
                        self,
                    ).validation_cursor() as int] as int],
                )
            } else {
                None
            },
            final(self).validation_cursor() == advanced(old(self).validation_cursor()),
    {
        let r = if self.cur_val < self.validation.len() {
            Some(self.data[self.validation[self.cur_val]])
        } else {
            None
        };
        self.cur_val = self.cur_val.saturating_add(1);
        r
    }

    /// The next unread training record, or `None` once every training record
    /// has been read; either way the training cursor moves on.
    pub fn get_training(&mut self) -> (r: Option<ClassifiedData<D, C>>)
        requires
            old(self).wf(),
        ensures
            final(self).wf(),
            final(self).records() == old(self).records(),
            final(self).training_split() == old(self).training_split(),
            final(self).validation_split() == old(self).validation_split(),
            final(self).validation_cursor() == old(self).validation_cursor(),
            r == if old(self).training_cursor() < old(self).training_split().len() {
                Some(
                    old(self).records()[old(self).training_split()[old(
                        self,
                    ).training_cursor() as int] as int],
                )
            } else {
                None
            },
            final(self).training_cursor() == advanced(old(self).training_cursor()),
    {
        let r = if self.cur_training < self.training.len() {
            Some(self.data[self.training[self.cur_training]])
        } else {
            None
        };
        self.cur_training = self.cur_training.saturating_add(1);
        r
    }

    /// Whether some training record is still unread.
    pub fn has_training(&self) -> (r: bool)
        requires
            self.wf(),
        ensures
            r == (self.training_cursor() < self.training_split().len()),
    {
        self.cur_training < self.training.len()
    }

    /// Marks every record of both parts as unread again.
    pub fn reset(&mut self)
        requires
            old(self).wf(),
        ensures
            final(self).wf(),
            final(self).records() == old(self).records(),
            final(self).training_split() == old(self).training_split(),
            final(self).validation_split() == old(self).validation_split(),
            final(self).training_cursor() == 0,
            final(self).validation_cursor() == 0,
    {
        self.cur_training = 0;
        self.cur_val = 0;
    }
}

proof fn lemma_push_contains(s: Seq<usize>, x: usize, j: usize)
    ensures
        s.push(x).contains(j) <==> (s.contains(j) || j == x),
{
    let t = s.push(x);
    if s.contains(j) {
        let w = choose|w: int| 0 <= w < s.len() && s[w] == j;
        assert(t[w] == j);
    }
    if j == x {
        assert(t[s.len() as int] == j);
    }
    if t.contains(j) {
        let w = choose|w: int| 0 <= w < t.len() && t[w] == j;
        if w < s.len() {
            assert(s[w] == j);
        }
    }
}

proof fn lemma_lists_range_excludes(s: Seq<usize>, n: usize)
    requires
        forall|k: int| 0 <= k < s.len() ==> s[k] < n,
    ensures
        !s.contains(n),
{
}

} // verus!
