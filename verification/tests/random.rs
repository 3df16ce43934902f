//! The behaviour of many random strings, next to that of `String`.

use compact_str::Repr;

struct Random(u64);

impl Random {
    fn next(&mut self) -> u64 {
        self.0 ^= self.0 << 13;
        self.0 ^= self.0 >> 7;
        self.0 ^= self.0 << 17;
        self.0
    }

    fn below(&mut self, bound: u64) -> u64 {
        self.next() % bound
    }

    fn any_char(&mut self) -> char {
        let bound = [0x80, 0x800, 0x1_0000, 0x11_0000][self.below(4) as usize];
        char::from_u32(self.below(bound) as u32).unwrap_or('x')
    }

    fn string(&mut self) -> String {
        let len = self.below(20);
        (0..len).map(|_| self.any_char()).collect()
    }

    fn bytes(&mut self) -> Vec<u8> {
        let mut bytes = self.string().into_bytes();
        if self.below(2) == 0 && !bytes.is_empty() {
            let at = self.below(bytes.len() as u64) as usize;
            bytes[at] = self.below(256) as u8;
        }
        if self.below(4) == 0 {
            bytes.pop();
        }
        bytes
    }
}

const ROUNDS: usize = 2000;

#[test]
fn quickcheck_create() {
    let mut random = Random(1);
    for _ in 0..ROUNDS {
        let s = random.string();
        let repr = Repr::new(&s);
        assert_eq!(repr.as_str(), s);
        assert_eq!(repr.len(), s.len());
    }
}

#[test]
fn quickcheck_from_utf8() {
    let mut random = Random(2);
    let mut valid = 0;
    for _ in 0..ROUNDS {
        let buf = random.bytes();
        match (core::str::from_utf8(&buf), Repr::from_utf8(&buf)) {
            (Ok(s), Ok(r)) => {
                assert_eq!(r.as_str(), s);
                assert_eq!(r.len(), s.len());
                valid += 1;
            }
            (Err(e), Err(r)) => {
                assert_eq!(e.valid_up_to(), r.valid_up_to);
                assert_eq!(e.error_len(), r.error_len);
            }
            _ => panic!("core::str and Repr differ on what is valid UTF-8!"),
        }
        assert_eq!(Repr::from_utf8_unchecked(&buf).as_slice(), &buf[..]);
    }
    assert!(valid > 0 && valid < ROUNDS);
}

#[test]
fn quickcheck_from_string() {
    let mut random = Random(3);
    for _ in 0..ROUNDS {
        let s = random.string();
        let r = Repr::from_string(s.clone());
        assert_eq!(r.len(), s.len());
        assert_eq!(r.as_str(), s.as_str());
    }
}

#[test]
fn quickcheck_into_string() {
    let mut random = Random(4);
    for _ in 0..ROUNDS {
        let control = random.string();
        let r = Repr::new(&control);
        let s = r.into_string();
        assert_eq!(control.len(), s.len());
        assert_eq!(control, s.as_str());
    }
}

#[test]
fn quickcheck_push_str() {
    let mut random = Random(5);
    for _ in 0..ROUNDS {
        let control = random.string();
        let append = random.string();
        let mut r = Repr::new(&control);
        let mut c = control;
        r.push_str(&append);
        c.push_str(&append);
        assert_eq!(r.as_str(), c.as_str());
        assert_eq!(r.len(), c.len());
    }
}

#[test]
fn quickcheck_clone() {
    let mut random = Random(6);
    for _ in 0..ROUNDS {
        let initial = random.string();
        let r_a = Repr::new(&initial);
        let r_b = r_a.clone();
        assert_eq!(r_a.as_str(), initial);
        assert_eq!(r_a.len(), initial.len());
        assert_eq!(r_a.as_str(), r_b.as_str());
        assert_eq!(r_a.len(), r_b.len());
        assert_eq!(r_a.capacity(), r_b.capacity());
        assert_eq!(r_a.is_heap_allocated(), r_b.is_heap_allocated());
    }
}

#[test]
fn random_operations_agree_with_string() {
    let mut random = Random(7);
    let mut r = Repr::new("");
    let mut c = String::new();
    for _ in 0..10 * ROUNDS {
        match random.below(6) {
            0 => {
                let s = random.string();
                r.push_str(&s);
                c.push_str(&s);
            }
            1 => r.reserve(random.below(60) as usize),
            2 => r.shrink_to(random.below(60) as usize),
            3 => r = r.clone(),
            4 => {
                let s = random.string().into_boxed_str();
                c = String::from(&s[..]);
                r = Repr::from_box_str(s);
            }
            _ => assert_eq!(r.pop(), c.pop()),
        }
        assert_eq!(r.as_str(), c);
        assert!(r.capacity() >= r.len());
    }
}
