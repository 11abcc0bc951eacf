//! Batching addresses for the geolocation lookup.
//!
//! The geolocation service answers a bounded number of addresses per
//! request, so the collected addresses are cut into chunks of a fixed size
//! before they are handed out, keeping their order; the last chunk may be
//! shorter.

use vstd::prelude::*;

use crate::records::RecordWithGeolocation;
use crate::records::RecordWithIp;

verus! {

/// The texts of a vector of strings, in order.
pub open spec fn string_views(xs: Seq<String>) -> Seq<Seq<char>> {
    xs.map_values(|s: String| s@)
}

/// `s` cut into consecutive chunks of `size`, in order; the last chunk may
/// be shorter, and an empty sequence has no chunks.
pub open spec fn chunks_of(s: Seq<Seq<char>>, size: int) -> Seq<Seq<Seq<char>>>
    decreases s.len(),
{
    if s.len() == 0 {
        Seq::empty()
    } else if s.len() <= size || size < 1 {
        seq![s]
    } else {
        seq![s.take(size)] + chunks_of(s.skip(size), size)
    }
}

/// Cut the addresses into batches of at most `size`, keeping their order.
pub fn batch_ips(ips: &Vec<String>, size: usize) -> (batches: Vec<Vec<String>>)
    requires
        size >= 1,
    ensures
        batches@.map_values(|b: Vec<String>| string_views(b@)) == chunks_of(
            string_views(ips@),
            size as int,
        ),
{
    let ghost all = string_views(ips@);
    let n = ips.len();
    let mut batches: Vec<Vec<String>> = Vec::new();
    let mut start: usize = 0;
    proof {
        assert(all.skip(0) =~= all);
        assert(batches@.map_values(|b: Vec<String>| string_views(b@)) + chunks_of(all, size as int)
            =~= chunks_of(all, size as int));
    }
    while start < n
        invariant
            start <= n,
            n == ips@.len(),
            size >= 1,
            all == string_views(ips@),
            chunks_of(all, size as int) == batches@.map_values(|b: Vec<String>| string_views(b@))
                + chunks_of(all.skip(start as int), size as int),
        decreases n - start,
    {
        let len = if n - start < size {
            n - start
        } else {
            size
        };
        let mut chunk: Vec<String> = Vec::new();
        let mut j: usize = 0;
        while j < len
            invariant
                j <= len,
                start + len <= n,
                n == ips@.len(),
                all == string_views(ips@),
                string_views(chunk@) == all.subrange(start as int, start + j),
            decreases len - j,
        {
            let item = ips[start + j].clone();
            let ghost iv = item@;
            let ghost old_chunk = chunk@;
            chunk.push(item);
            proof {
                assert(iv == ips@[start + j]@);
                assert(string_views(chunk@) =~= string_views(old_chunk).push(iv));
                assert(string_views(chunk@) =~= all.subrange(start as int, start + j + 1));
            }
            j = j + 1;
        }
        let ghost old_batches = batches@;
        let ghost chunk_view = string_views(chunk@);
        batches.push(chunk);
        proof {
            let rem = all.skip(start as int);
            assert(rem.len() == n - start);
            if rem.len() <= size as int {
                assert(len == n - start);
                assert(chunk_view =~= rem);
                assert(chunks_of(rem, size as int) == seq![rem]);
                assert(all.skip(start + len as int) =~= Seq::<Seq<char>>::empty());
                assert(chunks_of(all.skip(start + len as int), size as int)
                    == Seq::<Seq<Seq<char>>>::empty());
            } else {
                assert(len == size);
                assert(chunk_view =~= rem.take(size as int));
                assert(rem.skip(size as int) =~= all.skip(start + len as int));
                assert(chunks_of(rem, size as int) == seq![rem.take(size as int)] + chunks_of(
                    all.skip(start + len as int),
                    size as int,
                ));
            }
            assert(batches@.map_values(|b: Vec<String>| string_views(b@)) =~~= old_batches.map_values(
                |b: Vec<String>| string_views(b@),
            ) + seq![chunk_view]);
        }
        start = start + len;
    }
    proof {
        assert(all.skip(n as int) =~= Seq::<Seq<char>>::empty());
        assert(chunks_of(Seq::<Seq<char>>::empty(), size as int) == Seq::<Seq<Seq<char>>>::empty());
        assert(batches@.map_values(|b: Vec<String>| string_views(b@))
            + Seq::<Seq<Seq<char>>>::empty() =~= batches@.map_values(
            |b: Vec<String>| string_views(b@),
        ));
    }
    batches
}

/// The addresses of the resolved records, in order.
pub fn ips_of(records: &Vec<RecordWithIp>) -> (ips: Vec<String>)
    ensures
        string_views(ips@) == records@.map_values(|r: RecordWithIp| r.ip@),
{
    let mut ips: Vec<String> = Vec::new();
    let mut i: usize = 0;
    proof {
        assert(string_views(ips@) =~= records@.map_values(|r: RecordWithIp| r.ip@).take(0));
    }
    while i < records.len()
        invariant
            i <= records@.len(),
            string_views(ips@) == records@.map_values(|r: RecordWithIp| r.ip@).take(i as int),
        decreases records@.len() - i,
    {
        let item = records[i].ip.clone();
        let ghost iv = item@;
        let ghost old_ips = ips@;
        ips.push(item);
        proof {
            assert(iv == records@[i as int].ip@);
            assert(string_views(ips@) =~= string_views(old_ips).push(iv));
            assert(string_views(ips@) =~= records@.map_values(|r: RecordWithIp| r.ip@).take(
                i as int + 1,
            ));
        }
        i = i + 1;
    }
    proof {
        let m = records@.map_values(|r: RecordWithIp| r.ip@);
        assert(m.take(records@.len() as int) =~= m);
    }
    ips
}

/// A geolocated record from one looked-up address and the city it resolved
/// to, both copied verbatim.
pub fn geolocated_record(ip: &String, city: &String) -> (r: RecordWithGeolocation)
    ensures
        r.ip@ == ip@,
        r.location@ == city@,
{
    RecordWithGeolocation { ip: ip.clone(), location: city.clone() }
}

} // verus!
