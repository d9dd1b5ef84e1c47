use vstd::prelude::*;

verus! {

/// The views of a sequence of identifiers.
pub open spec fn addr_views(s: Seq<String>) -> Seq<Seq<char>> {
    s.map_values(|a: String| a@)
}

/// Identifiers barred from taking part in games, in the order they were added,
/// each at most once.
pub struct Blacklist {
    addrs: Vec<String>,
}

impl View for Blacklist {
    type V = Seq<Seq<char>>;

    closed spec fn view(&self) -> Seq<Seq<char>> {
        addr_views(self.addrs@)
    }
}

impl Blacklist {
    /// No identifier is listed twice.
    pub open spec fn wf(&self) -> bool {
        self@.no_duplicates()
    }

    /// An empty blacklist.
    pub fn new() -> (r: Blacklist)
        ensures
            r.wf(),
            r@ == Seq::<Seq<char>>::empty(),
    {
        let r = Blacklist { addrs: Vec::new() };
        assert(r@ =~= Seq::<Seq<char>>::empty());
        r
    }

    fn position(&self, addr: &String) -> (r: Option<usize>)
        ensures
            match r {
                Some(i) => i < self@.len() && self@[i as int] == addr@,
                None => !self@.contains(addr@),
            },
    {
        let mut i: usize = 0;
        while i < self.addrs.len()
            invariant
                i <= self@.len(),
                forall|j: int| 0 <= j < i ==> self@[j] != addr@,
            decreases self@.len() - i,
        {
            if self.addrs[i] == *addr {
                return Some(i);
            }
            i = i + 1;
        }
        None
    }

    /// Whether `addr` is on the blacklist.
    pub fn contains(&self, addr: &String) -> (r: bool)
        ensures
            r == self@.contains(addr@),
    {
        self.position(addr).is_some()
    }

    /// Puts `addr` on the blacklist; an identifier already there stays as it is.
    pub fn add(&mut self, addr: String)
        requires
            old(self).wf(),
        ensures
            final(self).wf(),
            old(self)@.contains(addr@) ==> final(self)@ == old(self)@,
            !old(self)@.contains(addr@) ==> final(self)@ == old(self)@.push(addr@),
    {
        if self.position(&addr).is_none() {
            let ghost a = addr@;
            self.addrs.push(addr);
            assert(self@ =~= old(self)@.push(a));
        }
    }

    /// Takes `addr` off the blacklist; an identifier not there changes nothing.
    pub fn remove(&mut self, addr: &String)
        requires
            old(self).wf(),
        ensures
            final(self).wf(),
            !old(self)@.contains(addr@) ==> final(self)@ == old(self)@,
            old(self)@.contains(addr@) ==> exists|i: int|
                0 <= i < old(self)@.len() && old(self)@[i] == addr@ && final(self)@ == old(self)@.remove(i),
            final(self)@.to_set() == old(self)@.to_set().remove(addr@),
    {
        match self.position(addr) {
            None => {
                assert(self@.to_set() =~= old(self)@.to_set().remove(addr@));
            },
            Some(i) => {
                let ghost before = self@;
                self.addrs.remove(i);
                proof {
                    assert(self@ =~= before.remove(i as int));
                    assert forall|x: Seq<char>| self@.to_set().contains(x) <==> before.to_set().remove(addr@).contains(x) by {
                        if self@.contains(x) {
                            let j = choose|j: int| 0 <= j < self@.len() && self@[j] == x;
                            if j < i {
                                assert(before[j] == x);
                            } else {
                                assert(before[j + 1] == x);
                            }
                        }
                        if before.contains(x) && x != addr@ {
                            let j = choose|j: int| 0 <= j < before.len() && before[j] == x;
                            if j < i {
                                assert(self@[j] == x);
                            } else {
                                assert(self@[j - 1] == x);
                            }
                        }
                    }
                    assert(self@.to_set() =~= before.to_set().remove(addr@));
                }
            },
        }
    }

    /// The listed identifiers, in the order they were added.
    pub fn addrs(&self) -> (r: Vec<String>)
        ensures
            addr_views(r@) == self@,
    {
        let mut r: Vec<String> = Vec::new();
        let mut i: usize = 0;
        while i < self.addrs.len()
            invariant
                i <= self.addrs@.len(),
                addr_views(r@) == self@.subrange(0, i as int),
            decreases self.addrs@.len() - i,
        {
            let ghost prev = r@;
            r.push(self.addrs[i].clone());
            proof {
                assert(r@ == prev.push(self.addrs@[i as int]));
                assert(addr_views(r@) =~= addr_views(prev).push(self.addrs@[i as int]@));
                assert(self@[i as int] == self.addrs@[i as int]@);
                assert(addr_views(r@) =~= self@.subrange(0, i + 1));
            }
            i = i + 1;
        }
        assert(self@.subrange(0, i as int) =~= self@);
        r
    }
}

} // verus!
