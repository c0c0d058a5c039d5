//! The fixed catalog of supported target boards.
use vstd::prelude::*;

use crate::lexer::token::same_text;

verus! {

/// A target board: its stable id, display name, memory sizes and fully
/// qualified board name.
#[derive(Debug, Clone, Copy)]
pub struct Board {
    pub id: &'static str,
    pub name: &'static str,
    pub flash_kb: u32,
    pub ram_kb: u32,
    pub fqbn: &'static str,
}

/// The catalog, in listing order.
pub open spec fn catalog_spec() -> Seq<Board> {
    seq![
        Board { id: "uno", name: "Arduino Uno", flash_kb: 32, ram_kb: 2, fqbn: "arduino:avr:uno" },
        Board { id: "nano", name: "Arduino Nano", flash_kb: 32, ram_kb: 2, fqbn: "arduino:avr:nano" },
        Board { id: "mega", name: "Arduino Mega 2560", flash_kb: 256, ram_kb: 8, fqbn: "arduino:avr:mega" },
        Board { id: "leonardo", name: "Arduino Leonardo", flash_kb: 32, ram_kb: 3, fqbn: "arduino:avr:leonardo" },
        Board { id: "micro", name: "Arduino Micro", flash_kb: 32, ram_kb: 3, fqbn: "arduino:avr:micro" },
        Board { id: "due", name: "Arduino Due", flash_kb: 512, ram_kb: 96, fqbn: "arduino:sam:arduino_due_x" },
        Board { id: "esp32", name: "ESP32 Dev Module", flash_kb: 4096, ram_kb: 520, fqbn: "esp32:esp32:esp32" },
        Board { id: "esp8266", name: "NodeMCU 1.0 (ESP8266)", flash_kb: 4096, ram_kb: 80, fqbn: "esp8266:esp8266:nodemcuv2" },
        Board { id: "pico", name: "Raspberry Pi Pico", flash_kb: 2048, ram_kb: 264, fqbn: "rp2040:rp2040:rpipico" },
    ]
}

/// Whether entry `i` is the first in the catalog with this id.
pub open spec fn is_first_with_id(id: Seq<char>, i: int) -> bool {
    &&& 0 <= i < catalog_spec().len()
    &&& catalog_spec()[i].id@ == id
    &&& forall|j: int| 0 <= j < i ==> (#[trigger] catalog_spec()[j]).id@ != id
}

/// The index of the first catalog entry with this id (meaningful when there is one).
pub open spec fn first_with_id(id: Seq<char>) -> int {
    choose|i: int| is_first_with_id(id, i)
}

proof fn lemma_first_unique(id: Seq<char>, i: int)
    requires
        is_first_with_id(id, i),
    ensures
        first_with_id(id) == i,
{
    let k = first_with_id(id);
    assert(is_first_with_id(id, k));
    if k < i {
        assert(catalog_spec()[k].id@ != id);
    } else if k > i {
        assert(catalog_spec()[i].id@ != id);
    }
}

impl Board {
    /// Every supported board, in a fixed order.
    pub fn catalog() -> (r: Vec<Board>)
        ensures
            r@ == catalog_spec(),
    {
        let r = vec![
            Board { id: "uno", name: "Arduino Uno", flash_kb: 32, ram_kb: 2, fqbn: "arduino:avr:uno" },
        Board { id: "nano", name: "Arduino Nano", flash_kb: 32, ram_kb: 2, fqbn: "arduino:avr:nano" },
        Board { id: "mega", name: "Arduino Mega 2560", flash_kb: 256, ram_kb: 8, fqbn: "arduino:avr:mega" },
        Board { id: "leonardo", name: "Arduino Leonardo", flash_kb: 32, ram_kb: 3, fqbn: "arduino:avr:leonardo" },
        Board { id: "micro", name: "Arduino Micro", flash_kb: 32, ram_kb: 3, fqbn: "arduino:avr:micro" },
        Board { id: "due", name: "Arduino Due", flash_kb: 512, ram_kb: 96, fqbn: "arduino:sam:arduino_due_x" },
        Board { id: "esp32", name: "ESP32 Dev Module", flash_kb: 4096, ram_kb: 520, fqbn: "esp32:esp32:esp32" },
        Board { id: "esp8266", name: "NodeMCU 1.0 (ESP8266)", flash_kb: 4096, ram_kb: 80, fqbn: "esp8266:esp8266:nodemcuv2" },
        Board { id: "pico", name: "Raspberry Pi Pico", flash_kb: 2048, ram_kb: 264, fqbn: "rp2040:rp2040:rpipico" },
        ];
        assert(r@ =~= catalog_spec());
        r
    }

    /// The board with the given id (case-sensitive), if the catalog has one.
    pub fn lookup(id: &str) -> (r: Option<Board>)
        ensures
            r matches Some(b) ==> b == catalog_spec()[first_with_id(id@)] && is_first_with_id(id@, first_with_id(id@)),
            r is None ==> forall|i: int| 0 <= i < catalog_spec().len() ==> (#[trigger] catalog_spec()[i]).id@ != id@,
    {
        let all = Board::catalog();
        let mut i: usize = 0;
        while i < all.len()
            invariant
                all@ == catalog_spec(),
                i <= all@.len(),
                forall|j: int| 0 <= j < i ==> (#[trigger] catalog_spec()[j]).id@ != id@,
            decreases all@.len() - i,
        {
            let b = all[i];
            if same_text(b.id, id) {
                assert(catalog_spec()[i as int] == b);
                assert(is_first_with_id(id@, i as int));
                proof {
                    lemma_first_unique(id@, i as int);
                }
                return Some(b);
            }
            i += 1;
        }
        None
    }
}

} // verus!
